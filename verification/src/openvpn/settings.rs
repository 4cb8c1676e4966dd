//! What the settings that a server pushes come to.
//!
//! A push message is a list of settings, and what it says is told here by which
//! setting of a kind stands last, apart from how the message is read.

use vstd::prelude::*;

use crate::net;
use crate::openvpn::config;
use crate::openvpn::config::DataCipher;
use crate::openvpn::session;
use crate::openvpn::session::PushDraft;
use crate::text;

verus! {

/// The words of the last setting that begins with `name`, if there is one.
pub open spec fn last_setting(settings: Seq<Seq<char>>, name: Seq<char>) -> Option<Seq<Seq<char>>>
    decreases settings.len(),
{
    if settings.len() == 0 {
        None
    } else {
        let words = text::spaced_words(settings.last());
        if words.len() > 0 && words[0] == name {
            Some(words)
        } else {
            last_setting(settings.drop_last(), name)
        }
    }
}

/// What stands behind the name of a setting: nothing, where it stands alone.
pub open spec fn value_of(words: Seq<Seq<char>>) -> Seq<char> {
    if words.len() > 1 {
        words[1]
    } else {
        Seq::<char>::empty()
    }
}

/// The number behind the name of a setting, where there is one.
pub open spec fn number_of(words: Seq<Seq<char>>, max: nat) -> Option<nat> {
    text::parsed_number(value_of(words), max)
}

proof fn lemma_names()
    ensures
        "ifconfig"@.len() == 8,
        "route-gateway"@.len() == 13,
        "cipher"@.len() == 6,
        "peer-id"@.len() == 7,
        "ping"@.len() == 4,
{
    reveal_strlit("ifconfig");
    reveal_strlit("route-gateway");
    reveal_strlit("cipher");
    reveal_strlit("peer-id");
    reveal_strlit("ping");
}

/// Whether a setting can be honoured: a cipher has to be known.
pub open spec fn can_be_honoured(setting: Seq<char>) -> bool {
    let words = text::spaced_words(setting);
    words.len() > 0 && words[0] == "cipher"@ ==> config::cipher_named(value_of(words)) is Some
}

proof fn lemma_read_last(draft: PushDraft, settings: Seq<Seq<char>>)
    requires
        settings.len() > 0,
    ensures
        session::settings_read(draft, settings) == match session::settings_read(
            draft,
            settings.drop_last(),
        ) {
            Ok(next) => session::setting_read(next, settings.last()),
            Err(why) => Err::<PushDraft, Seq<char>>(why),
        },
    decreases settings.len(),
{
    let less = settings.drop_last();
    if less.len() == 0 {
        assert(settings.skip(1) =~= Seq::<Seq<char>>::empty());
        assert(settings[0] == settings.last());
        match session::setting_read(draft, settings[0]) {
            Ok(next) => {
                assert(session::settings_read(next, settings.skip(1)) == Ok::<
                    PushDraft,
                    Seq<char>,
                >(next));
            },
            Err(_) => {},
        }
        assert(session::settings_read(draft, less) == Ok::<PushDraft, Seq<char>>(draft));
    } else {
        assert(less[0] == settings[0]);
        assert(less.skip(1) =~= settings.skip(1).drop_last());
        assert(settings.skip(1).last() == settings.last());
        match session::setting_read(draft, settings[0]) {
            Ok(next) => lemma_read_last(next, settings.skip(1)),
            Err(_) => {},
        }
    }
}

spec fn agrees(draft: PushDraft, first_cipher: DataCipher, settings: Seq<Seq<char>>) -> bool {
    &&& draft.address == match last_setting(settings, "ifconfig"@) {
        Some(words) => net::ipv4_of(value_of(words)),
        None => None,
    }
    &&& draft.gateway == match last_setting(settings, "route-gateway"@) {
        Some(words) => net::ipv4_of(value_of(words)),
        None => None,
    }
    &&& match last_setting(settings, "cipher"@) {
        Some(words) => config::cipher_named(value_of(words)) == Some(draft.cipher),
        None => draft.cipher == first_cipher,
    }
    &&& match draft.peer_id {
        Some(id) => last_setting(settings, "peer-id"@) matches Some(words) && number_of(
            words,
            u32::MAX as nat,
        ) == Some(id as nat),
        None => last_setting(settings, "peer-id"@) matches Some(words) ==> number_of(
            words,
            u32::MAX as nat,
        ) is None,
    }
    &&& match draft.ping {
        Some(seconds) => last_setting(settings, "ping"@) matches Some(words) && number_of(
            words,
            u64::MAX as nat,
        ) == Some(seconds as nat),
        None => last_setting(settings, "ping"@) matches Some(words) ==> number_of(
            words,
            u64::MAX as nat,
        ) is None,
    }
}

proof fn lemma_agrees(first_cipher: DataCipher, settings: Seq<Seq<char>>)
    ensures
        ({
            let blank = PushDraft {
                address: None,
                gateway: None,
                cipher: first_cipher,
                peer_id: None,
                ping: None,
            };
            let read = session::settings_read(blank, settings);
            &&& read matches Ok(draft) ==> agrees(draft, first_cipher, settings)
            &&& read is Ok <==> forall|k: int|
                0 <= k < settings.len() ==> can_be_honoured(#[trigger] settings[k])
        }),
    decreases settings.len(),
{
    lemma_names();
    let blank = PushDraft {
        address: None,
        gateway: None,
        cipher: first_cipher,
        peer_id: None,
        ping: None,
    };
    if settings.len() > 0 {
        let less = settings.drop_last();
        let last = settings[settings.len() - 1];
        lemma_agrees(first_cipher, less);
        lemma_read_last(blank, settings);
        assert(settings.last() == last);
        match session::settings_read(blank, less) {
            Ok(before) => {
                assert forall|k: int| 0 <= k < less.len() implies can_be_honoured(
                    #[trigger] settings[k],
                ) by {
                    assert(less[k] == settings[k]);
                }
            },
            Err(_) => {
                if forall|k: int| 0 <= k < settings.len() ==> can_be_honoured(#[trigger] settings[k]) {
                    assert forall|k: int| 0 <= k < less.len() implies can_be_honoured(
                        #[trigger] less[k],
                    ) by {
                        assert(less[k] == settings[k]);
                    }
                }
            },
        }
    }
}

/// What a push message means. The settings stand between commas; the last one of
/// a kind holds, and settings that are not known do not matter. A message is
/// taken exactly where its ciphers are known and its last `ifconfig` gives an
/// address.
pub proof fn the_last_setting_of_a_kind_holds(first_cipher: DataCipher, settings: Seq<Seq<char>>)
    requires
        settings.len() > 0,
        forall|k: int, i: int|
            #![trigger settings[k][i]]
            0 <= k < settings.len() && 0 <= i < settings[k].len() ==> settings[k][i] != ',',
    ensures
        ({
            let message = text::separated(settings, seq![',']);
            let read = session::push_read(first_cipher, message);
            &&& read is Ok <==> (forall|k: int|
                0 <= k < settings.len() ==> can_be_honoured(#[trigger] settings[k])) && (last_setting(
                settings,
                "ifconfig"@,
            ) matches Some(words) && net::ipv4_of(value_of(words)) is Some)
            &&& read matches Ok(pushed) ==> {
                &&& last_setting(settings, "ifconfig"@) matches Some(words) && net::ipv4_of(
                    value_of(words),
                ) == Some(pushed.address)
                &&& pushed.gateway == match last_setting(settings, "route-gateway"@) {
                    Some(words) => net::ipv4_of(value_of(words)),
                    None => None,
                }
                &&& match last_setting(settings, "cipher"@) {
                    Some(words) => config::cipher_named(value_of(words)) == Some(pushed.cipher),
                    None => pushed.cipher == first_cipher,
                }
                &&& match pushed.peer_id {
                    Some(id) => last_setting(settings, "peer-id"@) matches Some(words)
                        && number_of(words, u32::MAX as nat) == Some(id as nat),
                    None => last_setting(settings, "peer-id"@) matches Some(words) ==> number_of(
                        words,
                        u32::MAX as nat,
                    ) is None,
                }
                &&& match pushed.keepalive {
                    Some(seconds) => last_setting(settings, "ping"@) matches Some(words)
                        && number_of(words, u64::MAX as nat) == Some(seconds as nat),
                    None => last_setting(settings, "ping"@) matches Some(words) ==> number_of(
                        words,
                        u64::MAX as nat,
                    ) is None,
                }
            }
        }),
{
    text::lemma_split_undoes_join(settings, ',');
    lemma_agrees(first_cipher, settings);
}

/// A setting is read as its name and its value, so an address, a number or a
/// cipher that a server writes in the plain form comes out as it went in.
pub proof fn a_written_setting_reads_back(a: u8, b: u8, c: u8, d: u8, n: u32, cipher: DataCipher)
    ensures
        ({
            let address = net::Ipv4::made(a, b, c, d);
            let gap = seq![' '];
            let own = "ifconfig"@ + gap + address.dotted() + gap + "255.255.255.0"@;
            let far = "route-gateway"@ + gap + address.dotted();
            let peer = "peer-id"@ + gap + text::decimal(n as nat);
            let ping = "ping"@ + gap + text::decimal(n as nat);
            let chosen = "cipher"@ + gap + cipher.name();
            &&& net::ipv4_of(value_of(text::spaced_words(own))) == Some(address)
            &&& text::spaced_words(own)[0] == "ifconfig"@
            &&& net::ipv4_of(value_of(text::spaced_words(far))) == Some(address)
            &&& text::spaced_words(far)[0] == "route-gateway"@
            &&& number_of(text::spaced_words(peer), u32::MAX as nat) == Some(n as nat)
            &&& text::spaced_words(peer)[0] == "peer-id"@
            &&& number_of(text::spaced_words(ping), u64::MAX as nat) == Some(n as nat)
            &&& text::spaced_words(ping)[0] == "ping"@
            &&& config::cipher_named(value_of(text::spaced_words(chosen))) == Some(cipher)
            &&& text::spaced_words(chosen)[0] == "cipher"@
        }),
{
    let address = net::Ipv4::made(a, b, c, d);
    let mask = "255.255.255.0"@;
    net::a_dotted_address_reads_back(a, b, c, d);
    net::lemma_dotted_characters(a, b, c, d);
    text::lemma_decimal_reads_back(n as nat);
    lemma_name_words();
    lemma_cipher_name(cipher);
    assert(text::is_word(address.dotted()));
    assert(text::is_word(text::decimal(n as nat)));
    let gap = seq![' '];
    assert("ifconfig"@ + gap + address.dotted() + gap + mask =~= "ifconfig"@ + gap + (
    address.dotted() + gap + mask));
    text::lemma_words_read("ifconfig"@, ' ', address.dotted() + gap + mask);
    text::lemma_words_read(address.dotted(), ' ', mask);
    text::lemma_words_read("route-gateway"@, ' ', address.dotted());
    text::lemma_words_read("peer-id"@, ' ', text::decimal(n as nat));
    text::lemma_words_read(text::decimal(n as nat), ' ', mask);
    text::lemma_words_read("ping"@, ' ', text::decimal(n as nat));
    text::lemma_words_read("cipher"@, ' ', cipher.name());
    text::lemma_words_read(cipher.name(), ' ', mask);
}

proof fn lemma_name_words()
    ensures
        text::is_word("ifconfig"@),
        text::is_word("route-gateway"@),
        text::is_word("cipher"@),
        text::is_word("peer-id"@),
        text::is_word("ping"@),
{
    reveal_strlit("ifconfig");
    reveal_strlit("route-gateway");
    reveal_strlit("cipher");
    reveal_strlit("peer-id");
    reveal_strlit("ping");
}

pub(crate) proof fn lemma_cipher_name(cipher: DataCipher)
    ensures
        text::is_word(cipher.name()),
        config::cipher_named(cipher.name()) == Some(cipher),
{
    reveal_strlit("AES-256-GCM");
    reveal_strlit("AES-128-GCM");
    reveal_strlit("CHACHA20-POLY1305");
    reveal_strlit("CHACHA20POLY1305");
    assert(text::upper(cipher.name()) =~= cipher.name());
    assert("AES-256-GCM"@[4] == '2');
    assert("AES-128-GCM"@[4] == '1');
}

} // verus!
