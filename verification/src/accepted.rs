//! Which WireGuard configurations are accepted, and what becomes of each of their settings.
use crate::net::{ip_text, SocketAddr};
use crate::numbers::{number_of, NumberFault};
use crate::outside::{base64_bytes, network};
use crate::pieces::{join, lines, split_at_each, trimmed};
use crate::prepared::{
    document_lines, faithful, lemma_contains_push, prepared_lines, setting, kept,
    last_lines, middle_lines,
};
use crate::wgconfig::{
    after_line, after_lines, all_addresses, configuration, content, examined, field_of, halves,
    header, missing, networks, no_settings, routes, understood, Field, Section, SettingsView,
    WgErrorKind,
};
use vstd::prelude::*;

verus! {

// ---------------------------------------------------------------- what is accepted

/// Whether a line is neither empty nor the header of a section.
pub open spec fn sets(raw: Seq<char>) -> bool {
    content(raw).len() > 0 && content(raw)[0] != '['
}

/// The name that a line sets.
pub open spec fn name_on(raw: Seq<char>) -> Seq<char> {
    match setting(raw) {
        Some((key, _)) => key,
        None => Seq::empty(),
    }
}

/// The value that a line sets.
pub open spec fn value_on(raw: Seq<char>) -> Seq<char> {
    match setting(raw) {
        Some((_, value)) => value,
        None => Seq::empty(),
    }
}

/// Whether a text is 32 bytes in Base64.
pub open spec fn is_key(value: Seq<char>) -> bool {
    base64_bytes(value) matches Some(bytes) && bytes.len() == 32
}

/// Whether each piece of a text between its commas is a network.
pub open spec fn lists_networks(value: Seq<char>) -> bool {
    forall|i: int|
        0 <= i < split_at_each(value, ',').len() ==> network(
            trimmed(#[trigger] split_at_each(value, ',')[i]),
        ) is Some
}

/// Whether each piece of a text between its commas is an address.
pub open spec fn lists_servers(value: Seq<char>) -> bool {
    forall|i: int|
        0 <= i < split_at_each(value, ',').len() ==> ip_text(
            trimmed(#[trigger] split_at_each(value, ',')[i]),
        )
}

/// Whether a setting may stand in the section of the interface.
pub open spec fn good_for_interface(key: Seq<char>, value: Seq<char>) -> bool {
    ||| key == "PrivateKey"@ && is_key(value)
    ||| key == "Address"@ && lists_networks(value)
    ||| key == "DNS"@ && lists_servers(value)
    ||| key == "ListenPort"@ && number_of(value, 65535) is Ok
    ||| key == "MTU"@
}

/// Whether a setting may stand in the section of the peer.
pub open spec fn good_for_peer(key: Seq<char>, value: Seq<char>) -> bool {
    ||| (key == "PublicKey"@ || key == "PresharedKey"@) && is_key(value)
    ||| key == "AllowedIPs"@ && lists_networks(value)
    ||| key == "Endpoint"@
    ||| key == "PersistentKeepalive"@
}

/// Whether the setting on a line may stand behind the header of the interface, and behind that of
/// the peer where there is one.
pub open spec fn good_at(all: Seq<Seq<char>>, i: int, a: int, b: int) -> bool {
    setting(all[i]) matches Some((key, value)) && value.len() > 0 && if b >= 0 && i > b {
        good_for_peer(key, value)
    } else {
        a >= 0 && i > a && good_for_interface(key, value)
    }
}

/// Whether two lines set the same name in the same section, where the peer begins at a place.
pub open spec fn repeat(all: Seq<Seq<char>>, i: int, j: int, b: int) -> bool {
    &&& sets(all[i]) && sets(all[j])
    &&& setting(all[i]) is Some && setting(all[j]) is Some
    &&& name_on(all[i]) == name_on(all[j])
    &&& (b >= 0 && i > b) == (b >= 0 && j > b)
}

/// Whether a name is set behind one place and before another.
pub open spec fn is_set(all: Seq<Seq<char>>, key: Seq<char>, from: int, to: int) -> bool {
    exists|i: int|
        from < i < to && 0 <= i < all.len() && sets(#[trigger] all[i]) && (setting(all[i]) matches Some(
            (k, _),
        ) && k == key)
}

/// Whether lines are a configuration that is accepted, with the header of the interface at one
/// place and that of the peer at another: there is no third; each setting may stand where it
/// stands, has a value and is not repeated in its section; and the two keys, the addresses and the
/// routes are there.
pub open spec fn acceptable(all: Seq<Seq<char>>, a: int, b: int) -> bool {
    &&& 0 <= a < b < all.len()
    &&& content(all[a]) == "[Interface]"@
    &&& content(all[b]) == "[Peer]"@
    &&& forall|i: int| 0 <= i < all.len() && header(#[trigger] all[i]) ==> i == a || i == b
    &&& forall|i: int| 0 <= i < all.len() && sets(#[trigger] all[i]) ==> good_at(all, i, a, b)
    &&& forall|i: int, j: int| 0 <= i < j < all.len() ==> !#[trigger] repeat(all, i, j, b)
    &&& is_set(all, "PrivateKey"@, a, b)
    &&& is_set(all, "Address"@, a, b)
    &&& is_set(all, "PublicKey"@, b, all.len() as int)
    &&& is_set(all, "AllowedIPs"@, b, all.len() as int)
}

// ---------------------------------------------------------------- reading from the top

/// The section that a line behind the headers stands in.
spec fn section_at(i: int, a: int, b: int) -> Section {
    if b >= 0 && i > b {
        Section::Peer
    } else if a >= 0 && i > a {
        Section::Interface
    } else {
        Section::Start
    }
}

/// The line that a setting is written out as; none where it is replaced.
pub open spec fn outcome(peer: bool, key: Seq<char>, value: Seq<char>) -> Option<Seq<char>> {
    if !peer && (key == "PrivateKey"@ || key == "Address"@ || key == "DNS"@) {
        Some(key + " = "@ + value)
    } else if peer && (key == "PublicKey"@ || key == "PresharedKey"@) {
        Some(key + " = "@ + value)
    } else if peer && key == "AllowedIPs"@ {
        Some(key + " = "@ + join(routes(networks(split_at_each(value, ','))->0), ", "@))
    } else {
        None
    }
}

/// Whether the setting on a line is kept among the lines of its section, and tells the port where it
/// is that.
spec fn kept_at(all: Seq<Seq<char>>, i: int, b: int, v: SettingsView) -> bool {
    let (key, value) = setting(all[i])->0;
    let peer = b >= 0 && i > b;
    &&& outcome(peer, key, value) matches Some(line) ==> if peer {
        v.peer.contains(line)
    } else {
        v.interface.contains(line)
    }
    &&& !peer && key == "ListenPort"@ ==> number_of(value, 65535) == Ok::<_, NumberFault>(
        v.port as nat,
    )
}

/// Whether a line that is written out comes from a line of the user.
spec fn stems(all: Seq<Seq<char>>, n: int, b: int, peer: bool, line: Seq<char>) -> bool {
    exists|i: int|
        0 <= i < n && sets(#[trigger] all[i]) && (b >= 0 && i > b) == peer && setting(all[i]) is Some
            && outcome(peer, name_on(all[i]), value_on(all[i])) == Some(line)
}

spec fn shape(all: Seq<Seq<char>>, n: int, v: SettingsView, a: int, b: int) -> bool {
    &&& 0 <= n <= all.len()
    &&& v.section == section_at(n, a, b)
    &&& -1 <= a < n && -1 <= b < n
    &&& b >= 0 ==> 0 <= a < b
    &&& a >= 0 ==> content(all[a]) == "[Interface]"@
    &&& b >= 0 ==> content(all[b]) == "[Peer]"@
    &&& forall|i: int| 0 <= i < n && header(#[trigger] all[i]) ==> i == a || i == b
}

spec fn read_to(all: Seq<Seq<char>>, n: int, v: SettingsView, a: int, b: int) -> bool {
    &&& shape(all, n, v, a, b)
    &&& forall|i: int| 0 <= i < n && sets(#[trigger] all[i]) ==> good_at(all, i, a, b)
    &&& forall|i: int, j: int| 0 <= i < j < n ==> !#[trigger] repeat(all, i, j, b)
    &&& forall|i: int|
        0 <= i < n && sets(#[trigger] all[i]) ==> v.seen.contains(
            (section_at(i, a, b), name_on(all[i])),
        )
    &&& forall|x: (Section, Seq<char>)| #[trigger]
        v.seen.contains(x) ==> exists|i: int|
            0 <= i < n && sets(#[trigger] all[i]) && x == (section_at(i, a, b), name_on(all[i]))
    &&& forall|i: int| 0 <= i < n && sets(#[trigger] all[i]) ==> kept_at(all, i, b, v)
    &&& forall|j: int|
        0 <= j < v.interface.len() ==> stems(all, n, b, false, #[trigger] v.interface[j])
    &&& forall|j: int| 0 <= j < v.peer.len() ==> stems(all, n, b, true, #[trigger] v.peer[j])
    &&& v.port == 0 || is_set(all, "ListenPort"@, -1, n)
}

proof fn lemma_names()
    ensures
        "[Interface]"@.len() > 0 && "[Interface]"@[0] == '[',
        "[Peer]"@.len() > 0 && "[Peer]"@[0] == '[',
        "[Interface]"@ != "[Peer]"@,
{
    reveal_strlit("[Interface]");
    reveal_strlit("[Peer]");
    assert("[Interface]"@.len() != "[Peer]"@.len());
}

/// What the tables of settings come to: a setting is taken in exactly where it may stand.
proof fn lemma_field(peer: bool, key: Seq<char>, value: Seq<char>)
    ensures
        ({
            let section = if peer {
                Section::Peer
            } else {
                Section::Interface
            };
            let good = if peer {
                good_for_peer(key, value)
            } else {
                good_for_interface(key, value)
            };
            let field = field_of(section, key);
            let found = examined(field, value);
            &&& good <==> match field {
                Field::Key => is_key(value),
                Field::Addresses | Field::Routes => networks(split_at_each(value, ',')) is Some,
                Field::ListenPort => number_of(value, 0xffff) is Ok,
                Field::Dns => all_addresses(value),
                Field::Replaced => true,
                Field::Unsupported => false,
            }
            &&& outcome(peer, key, value) == match field {
                Field::Key | Field::Addresses | Field::Dns => Some(key + " = "@ + value),
                Field::Routes => Some(
                    key + " = "@ + join(routes(networks(split_at_each(value, ','))->0), ", "@),
                ),
                _ => None,
            }
            &&& field == Field::ListenPort <==> !peer && key == "ListenPort"@
        }),
{
    reveal_strlit("PrivateKey");
    reveal_strlit("Address");
    reveal_strlit("DNS");
    reveal_strlit("ListenPort");
    reveal_strlit("MTU");
    reveal_strlit("PublicKey");
    reveal_strlit("PresharedKey");
    reveal_strlit("AllowedIPs");
    reveal_strlit("Endpoint");
    reveal_strlit("PersistentKeepalive");
    assert("PrivateKey"@.len() == 10 && "Address"@.len() == 7 && "DNS"@.len() == 3);
    assert("ListenPort"@.len() == 10 && "MTU"@.len() == 3 && "PublicKey"@.len() == 9);
    assert("PresharedKey"@.len() == 12 && "AllowedIPs"@.len() == 10 && "Endpoint"@.len() == 8);
    assert("PersistentKeepalive"@.len() == 19);
    assert("PrivateKey"@[0] != "ListenPort"@[0]);
    assert("DNS"@[0] != "MTU"@[0]);
    assert(lists_networks(value) <==> networks(split_at_each(value, ',')) is Some);
    assert(lists_servers(value) <==> all_addresses(value));
}

/// What is known of the lines before is known with an empty line or a header behind them.
proof fn lemma_read_past(
    all: Seq<Seq<char>>,
    n: int,
    v: SettingsView,
    w: SettingsView,
    a: int,
    b: int,
    c: int,
    d: int,
)
    requires
        read_to(all, n, v, a, b),
        shape(all, n + 1, w, c, d),
        !sets(all[n]),
        c == a || (a == -1 && c == n),
        d == b || (b == -1 && d == n),
        w.seen == v.seen && w.interface == v.interface && w.peer == v.peer && w.port == v.port,
    ensures
        read_to(all, n + 1, w, c, d),
{
    assert forall|i: int| 0 <= i < n implies #[trigger] section_at(i, c, d) == section_at(i, a, b) by {}
    assert forall|i: int| 0 <= i < n + 1 && sets(#[trigger] all[i]) implies good_at(all, i, c, d) by {
        assert(good_at(all, i, a, b));
    }
    assert forall|i: int, j: int| 0 <= i < j < n + 1 implies !#[trigger] repeat(all, i, j, d) by {
        if j < n {
            assert(!repeat(all, i, j, b));
        }
    }
    assert forall|i: int| 0 <= i < n + 1 && sets(#[trigger] all[i]) implies w.seen.contains(
        (section_at(i, c, d), name_on(all[i])),
    ) by {
        assert(v.seen.contains((section_at(i, a, b), name_on(all[i]))));
    }
    assert forall|x: (Section, Seq<char>)| #[trigger] w.seen.contains(x) implies exists|i: int|
        0 <= i < n + 1 && sets(#[trigger] all[i]) && x == (section_at(i, c, d), name_on(all[i])) by {
        assert(v.seen.contains(x));
        let i = choose|i: int|
            0 <= i < n && sets(#[trigger] all[i]) && x == (section_at(i, a, b), name_on(all[i]));
        assert(sets(all[i]) && x == (section_at(i, c, d), name_on(all[i])));
    }
    assert forall|i: int| 0 <= i < n + 1 && sets(#[trigger] all[i]) implies kept_at(all, i, d, w) by {
        assert(kept_at(all, i, b, v));
    }
    assert forall|j: int| 0 <= j < w.interface.len() implies stems(
        all,
        n + 1,
        d,
        false,
        #[trigger] w.interface[j],
    ) by {
        assert(stems(all, n, b, false, v.interface[j]));
        let i = choose|i: int|
            0 <= i < n && sets(#[trigger] all[i]) && (b >= 0 && i > b) == false && setting(all[i])
                is Some && outcome(false, name_on(all[i]), value_on(all[i])) == Some(v.interface[j]);
        assert(sets(all[i]) && (d >= 0 && i > d) == false);
    }
    assert forall|j: int| 0 <= j < w.peer.len() implies stems(
        all,
        n + 1,
        d,
        true,
        #[trigger] w.peer[j],
    ) by {
        assert(stems(all, n, b, true, v.peer[j]));
        let i = choose|i: int|
            0 <= i < n && sets(#[trigger] all[i]) && (b >= 0 && i > b) == true && setting(all[i])
                is Some && outcome(true, name_on(all[i]), value_on(all[i])) == Some(v.peer[j]);
        assert(sets(all[i]) && (d >= 0 && i > d) == true);
    }
    if v.port != 0 {
        lemma_is_set_grows(all, "ListenPort"@, n);
    }
}

proof fn lemma_is_set_grows(all: Seq<Seq<char>>, key: Seq<char>, n: int)
    requires
        is_set(all, key, -1, n),
    ensures
        is_set(all, key, -1, n + 1),
{
    let i = choose|i: int|
        -1 < i < n && 0 <= i < all.len() && sets(#[trigger] all[i]) && (setting(all[i]) matches Some(
            (k, _),
        ) && k == key);
    assert(sets(all[i]));
}

/// A setting is taken in exactly where it may stand and its name was not set, and then all that was
/// known is known of it too.
proof fn lemma_read_setting(all: Seq<Seq<char>>, n: int, v: SettingsView, a: int, b: int)
    requires
        read_to(all, n, v, a, b),
        n < all.len(),
        sets(all[n]),
    ensures
        after_line(v, all[n]) is Ok <==> good_at(all, n, a, b) && forall|i: int|
            0 <= i < n ==> !#[trigger] repeat(all, i, n, b),
        after_line(v, all[n]) matches Ok(w) ==> read_to(all, n + 1, w, a, b),
{
    let section = section_at(n, a, b);
    let peer = b >= 0 && n > b;
    if setting(all[n]) is Some {
        let key = name_on(all[n]);
        let value = value_on(all[n]);
        lemma_field(peer, key, value);
        if v.seen.contains((section, key)) {
            let i = choose|i: int|
                0 <= i < n && sets(#[trigger] all[i]) && (section, key) == (
                    section_at(i, a, b),
                    name_on(all[i]),
                );
            assert(good_at(all, i, a, b));
            assert(repeat(all, i, n, b));
        } else {
            assert forall|i: int| 0 <= i < n implies !#[trigger] repeat(all, i, n, b) by {
                if repeat(all, i, n, b) {
                    assert(good_at(all, i, a, b));
                    assert(v.seen.contains((section_at(i, a, b), name_on(all[i]))));
                }
            }
        }
        if let Ok(w) = after_line(v, all[n]) {
            lemma_setting_changes(all, n, v, w, a, b);
            lemma_setting_taken(all, n, v, w, a, b);
        }
    }
}

/// Whether settings are others with the setting on a line taken in.
spec fn takes_in(all: Seq<Seq<char>>, n: int, v: SettingsView, w: SettingsView, a: int, b: int) -> bool {
    let section = section_at(n, a, b);
    let peer = b >= 0 && n > b;
    let key = name_on(all[n]);
    let value = value_on(all[n]);
    let line = outcome(peer, key, value);
    &&& w.section == v.section
    &&& w.seen == v.seen.push((section, key))
    &&& w.interface == if !peer && line is Some {
        v.interface.push(line->0)
    } else {
        v.interface
    }
    &&& w.peer == if peer && line is Some {
        v.peer.push(line->0)
    } else {
        v.peer
    }
    &&& !peer && key == "ListenPort"@ ==> number_of(value, 65535) == Ok::<_, NumberFault>(
        w.port as nat,
    )
    &&& peer || key != "ListenPort"@ ==> w.port == v.port
}

proof fn lemma_setting_changes(
    all: Seq<Seq<char>>,
    n: int,
    v: SettingsView,
    w: SettingsView,
    a: int,
    b: int,
)
    requires
        v.section == section_at(n, a, b),
        sets(all[n]),
        setting(all[n]) is Some,
        good_at(all, n, a, b),
        after_line(v, all[n]) == Ok::<_, (WgErrorKind, Seq<char>)>(w),
    ensures
        takes_in(all, n, v, w, a, b),
{
    let peer = b >= 0 && n > b;
    lemma_field(peer, name_on(all[n]), value_on(all[n]));
    crate::numbers::numbers_are_limited(value_on(all[n]), 65535);
}

proof fn lemma_still_kept(
    all: Seq<Seq<char>>,
    n: int,
    v: SettingsView,
    w: SettingsView,
    a: int,
    b: int,
    i: int,
)
    requires
        takes_in(all, n, v, w, a, b),
        0 <= i <= n,
        good_at(all, i, a, b),
        i < n ==> kept_at(all, i, b, v),
        i < n ==> v.seen.contains((section_at(i, a, b), name_on(all[i]))),
        good_at(all, n, a, b),
        !v.seen.contains((section_at(n, a, b), name_on(all[n]))),
    ensures
        kept_at(all, i, b, w),
{
    let peer = b >= 0 && n > b;
    let own = b >= 0 && i > b;
    let line = outcome(peer, name_on(all[n]), value_on(all[n]));
    let old = outcome(own, name_on(all[i]), value_on(all[i]));
    if line is Some && old is Some {
        lemma_contains_push(v.interface, line->0, old->0);
        lemma_contains_push(v.peer, line->0, old->0);
    }
}

proof fn lemma_setting_taken(
    all: Seq<Seq<char>>,
    n: int,
    v: SettingsView,
    w: SettingsView,
    a: int,
    b: int,
)
    requires
        read_to(all, n, v, a, b),
        n < all.len(),
        sets(all[n]),
        setting(all[n]) is Some,
        good_at(all, n, a, b),
        !v.seen.contains((section_at(n, a, b), name_on(all[n]))),
        takes_in(all, n, v, w, a, b),
    ensures
        read_to(all, n + 1, w, a, b),
{
    let section = section_at(n, a, b);
    let peer = b >= 0 && n > b;
    let key = name_on(all[n]);
    let line = outcome(peer, key, value_on(all[n]));
    assert(shape(all, n + 1, w, a, b));
    assert forall|i: int, j: int| 0 <= i < j < n + 1 implies !#[trigger] repeat(all, i, j, b) by {
        if j < n {
            assert(!repeat(all, i, j, b));
        } else if repeat(all, i, n, b) {
            assert(good_at(all, i, a, b));
            assert(v.seen.contains((section_at(i, a, b), name_on(all[i]))));
        }
    }
    assert forall|i: int| 0 <= i < n + 1 && sets(#[trigger] all[i]) implies w.seen.contains(
        (section_at(i, a, b), name_on(all[i])),
    ) by {
        let x = (section_at(i, a, b), name_on(all[i]));
        lemma_contains_push(v.seen, (section, key), x);
    }
    assert forall|x: (Section, Seq<char>)| #[trigger] w.seen.contains(x) implies exists|i: int|
        0 <= i < n + 1 && sets(#[trigger] all[i]) && x == (section_at(i, a, b), name_on(all[i])) by {
        lemma_contains_push(v.seen, (section, key), x);
        if x == (section, key) {
            assert(sets(all[n]));
        } else {
            let i = choose|i: int|
                0 <= i < n && sets(#[trigger] all[i]) && x == (section_at(i, a, b), name_on(all[i]));
            assert(sets(all[i]));
        }
    }
    assert forall|i: int| 0 <= i < n + 1 && sets(#[trigger] all[i]) implies kept_at(all, i, b, w) by {
        if i < n {
            assert(good_at(all, i, a, b));
            assert(kept_at(all, i, b, v));
            assert(v.seen.contains((section_at(i, a, b), name_on(all[i]))));
        }
        lemma_still_kept(all, n, v, w, a, b, i);
    }
    assert forall|j: int| 0 <= j < w.interface.len() implies stems(
        all,
        n + 1,
        b,
        false,
        #[trigger] w.interface[j],
    ) by {
        if j < v.interface.len() {
            assert(w.interface[j] == v.interface[j]);
            lemma_stems_grow(all, n, b, false, v.interface[j]);
        } else {
            assert(sets(all[n]));
        }
    }
    assert forall|j: int| 0 <= j < w.peer.len() implies stems(
        all,
        n + 1,
        b,
        true,
        #[trigger] w.peer[j],
    ) by {
        if j < v.peer.len() {
            assert(w.peer[j] == v.peer[j]);
            lemma_stems_grow(all, n, b, true, v.peer[j]);
        } else {
            assert(sets(all[n]));
        }
    }
    if !peer && key == "ListenPort"@ {
        assert(sets(all[n]));
        assert(is_set(all, "ListenPort"@, -1, n + 1));
    } else if w.port != 0 {
        lemma_is_set_grows(all, "ListenPort"@, n);
    }
}

proof fn lemma_stems_grow(all: Seq<Seq<char>>, n: int, b: int, peer: bool, line: Seq<char>)
    requires
        stems(all, n, b, peer, line),
    ensures
        stems(all, n + 1, b, peer, line),
{
    let i = choose|i: int|
        0 <= i < n && sets(#[trigger] all[i]) && (b >= 0 && i > b) == peer && setting(all[i]) is Some
            && outcome(peer, name_on(all[i]), value_on(all[i])) == Some(line);
    assert(sets(all[i]));
}

/// Lines that were all taken in have one header of each kind at most, and are known.
proof fn lemma_read_lines(all: Seq<Seq<char>>, n: int)
    requires
        0 <= n <= all.len(),
        after_lines(no_settings(), all.take(n)) is Ok,
    ensures
        exists|a: int, b: int| #[trigger]
            read_to(all, n, after_lines(no_settings(), all.take(n))->Ok_0, a, b),
    decreases n,
{
    lemma_names();
    let end = after_lines(no_settings(), all.take(n))->Ok_0;
    if n == 0 {
        assert(all.take(0).len() == 0);
        assert(end == no_settings());
        assert(read_to(all, n, end, -1, -1));
    } else {
        lemma_take_one(all, n - 1);
        lemma_read_lines(all, n - 1);
        let v = after_lines(no_settings(), all.take(n - 1))->Ok_0;
        let (a, b) = choose|a: int, b: int| #[trigger] read_to(all, n - 1, v, a, b);
        let w = after_line(v, all[n - 1])->Ok_0;
        if sets(all[n - 1]) {
            lemma_read_setting(all, n - 1, v, a, b);
            assert(read_to(all, n, end, a, b));
        } else if content(all[n - 1]).len() == 0 {
            assert(shape(all, n, w, a, b));
            lemma_read_past(all, n - 1, v, w, a, b, a, b);
            assert(read_to(all, n, end, a, b));
        } else if content(all[n - 1]) == "[Interface]"@ {
            assert(shape(all, n, w, n - 1, b));
            lemma_read_past(all, n - 1, v, w, a, b, n - 1, b);
            assert(read_to(all, n, end, n - 1, b));
        } else {
            assert(shape(all, n, w, a, n - 1));
            lemma_read_past(all, n - 1, v, w, a, b, a, n - 1);
            assert(read_to(all, n, end, a, n - 1));
        }
    }
}

proof fn lemma_take_one(all: Seq<Seq<char>>, n: int)
    requires
        0 <= n < all.len(),
    ensures
        after_lines(no_settings(), all.take(n + 1)) == match after_lines(no_settings(), all.take(n)) {
            Ok(v) => after_line(v, all[n]),
            Err(e) => Err(e),
        },
{
    let one = seq![all[n]];
    assert(all.take(n + 1) =~= all.take(n) + one);
    crate::prepared::lemma_after_append(no_settings(), all.take(n), one);
    assert(one.skip(1) =~= Seq::<Seq<char>>::empty());
    reveal_with_fuel(after_lines, 2);
}

/// The lines of an acceptable configuration are all taken in.
proof fn lemma_acceptable_is_read(all: Seq<Seq<char>>, a: int, b: int, n: int)
    requires
        acceptable(all, a, b),
        0 <= n <= all.len(),
    ensures
        after_lines(no_settings(), all.take(n)) is Ok,
        read_to(
            all,
            n,
            after_lines(no_settings(), all.take(n))->Ok_0,
            if a < n {
                a
            } else {
                -1
            },
            if b < n {
                b
            } else {
                -1
            },
        ),
    decreases n,
{
    lemma_names();
    if n == 0 {
        assert(all.take(0).len() == 0);
        assert(read_to(all, 0, no_settings(), -1, -1));
    } else {
        let m = n - 1;
        lemma_take_one(all, m);
        lemma_acceptable_is_read(all, a, b, m);
        let v = after_lines(no_settings(), all.take(m))->Ok_0;
        let c: int = if a < m {
            a
        } else {
            -1
        };
        let d: int = if b < m {
            b
        } else {
            -1
        };
        if sets(all[m]) {
            assert(good_at(all, m, a, b));
            assert(good_at(all, m, c, d));
            assert forall|i: int| 0 <= i < m implies !#[trigger] repeat(all, i, m, d) by {
                assert(!repeat(all, i, m, b));
            }
            lemma_read_setting(all, m, v, c, d);
        } else if content(all[m]).len() == 0 {
            let w = after_line(v, all[m])->Ok_0;
            assert(shape(all, n, w, c, d));
            lemma_read_past(all, m, v, w, c, d, c, d);
        } else {
            assert(header(all[m]));
            let w = after_line(v, all[m])->Ok_0;
            if m == a {
                assert(shape(all, n, w, m, d));
                lemma_read_past(all, m, v, w, c, d, m, d);
            } else {
                assert(shape(all, n, w, c, m));
                lemma_read_past(all, m, v, w, c, d, c, m);
            }
        }
    }
}

proof fn lemma_seen_is_set(
    all: Seq<Seq<char>>,
    v: SettingsView,
    a: int,
    b: int,
    peer: bool,
    key: Seq<char>,
)
    requires
        read_to(all, all.len() as int, v, a, b),
        0 <= a < b < all.len(),
    ensures
        peer ==> (v.seen.contains((Section::Peer, key)) <==> is_set(
            all,
            key,
            b,
            all.len() as int,
        )),
        !peer ==> (v.seen.contains((Section::Interface, key)) <==> is_set(all, key, a, b)),
{
    let section = if peer {
        Section::Peer
    } else {
        Section::Interface
    };
    let n = all.len() as int;
    if v.seen.contains((section, key)) {
        let i = choose|i: int|
            0 <= i < n && sets(#[trigger] all[i]) && (section, key) == (
                section_at(i, a, b),
                name_on(all[i]),
            );
        assert(good_at(all, i, a, b));
        lemma_names();
        assert(i != b);
        assert(sets(all[i]));
    }
    if peer && is_set(all, key, b, n) {
        let i = choose|i: int|
            b < i < n && 0 <= i < all.len() && sets(#[trigger] all[i]) && (setting(all[i]) matches Some(
                (k, _),
            ) && k == key);
        assert(v.seen.contains((section_at(i, a, b), name_on(all[i]))));
    }
    if !peer && is_set(all, key, a, b) {
        let i = choose|i: int|
            a < i < b && 0 <= i < all.len() && sets(#[trigger] all[i]) && (setting(all[i]) matches Some(
                (k, _),
            ) && k == key);
        assert(v.seen.contains((section_at(i, a, b), name_on(all[i]))));
    }
}

proof fn lemma_accepted_is_acceptable(all: Seq<Seq<char>>, v: SettingsView, a: int, b: int)
    requires
        read_to(all, all.len() as int, v, a, b),
        v.section == Section::Peer,
        missing(v) is None,
    ensures
        acceptable(all, a, b),
{
    lemma_names();
    lemma_seen_is_set(all, v, a, b, false, "PrivateKey"@);
    lemma_seen_is_set(all, v, a, b, false, "Address"@);
    lemma_seen_is_set(all, v, a, b, true, "PublicKey"@);
    lemma_seen_is_set(all, v, a, b, true, "AllowedIPs"@);
}

/// What an accepted configuration is read as: there are the places of its headers, and all of its
/// lines are known.
proof fn lemma_understood(input: Seq<char>) -> (r: (int, int))
    requires
        understood(input) is Ok,
    ensures
        acceptable(lines(input), r.0, r.1),
        read_to(lines(input), lines(input).len() as int, understood(input)->Ok_0, r.0, r.1),
{
    let all = lines(input);
    let n = all.len() as int;
    assert(all.take(n) =~= all);
    lemma_read_lines(all, n);
    let v = after_lines(no_settings(), all)->Ok_0;
    let (a, b) = choose|a: int, b: int| #[trigger] read_to(all, n, v, a, b);
    lemma_accepted_is_acceptable(all, v, a, b);
    (a, b)
}

proof fn lemma_acceptable_is_accepted(input: Seq<char>, a: int, b: int)
    requires
        acceptable(lines(input), a, b),
    ensures
        understood(input) is Ok,
{
    let all = lines(input);
    let n = all.len() as int;
    assert(all.take(n) =~= all);
    lemma_acceptable_is_read(all, a, b, n);
    let v = after_lines(no_settings(), all)->Ok_0;
    lemma_seen_is_set(all, v, a, b, false, "PrivateKey"@);
    lemma_seen_is_set(all, v, a, b, false, "Address"@);
    lemma_seen_is_set(all, v, a, b, true, "PublicKey"@);
    lemma_seen_is_set(all, v, a, b, true, "AllowedIPs"@);
    assert(missing(v) is None);
    assert(v.section == Section::Peer);
}

/// A configuration is accepted exactly where it is acceptable, whatever the order of its settings.
pub proof fn acceptable_configurations_are_accepted(input: Seq<char>)
    ensures
        understood(input) is Ok <==> exists|a: int, b: int| #[trigger]
            acceptable(lines(input), a, b),
{
    if understood(input) is Ok {
        let (a, b) = lemma_understood(input);
        assert(acceptable(lines(input), a, b));
    }
    if exists|a: int, b: int| #[trigger] acceptable(lines(input), a, b) {
        let (a, b) = choose|a: int, b: int| #[trigger] acceptable(lines(input), a, b);
        lemma_acceptable_is_accepted(input, a, b);
    }
}

// ---------------------------------------------------------------- what becomes of each setting

/// Whether a line stands in a section: its header is above, and no other between.
pub open spec fn under(all: Seq<Seq<char>>, i: int, name: Seq<char>) -> bool {
    exists|h: int| #[trigger] heads(all, h, i, name)
}

/// Whether a line is the header of a section, and the last above another line.
pub open spec fn heads(all: Seq<Seq<char>>, h: int, i: int, name: Seq<char>) -> bool {
    &&& 0 <= h < i < all.len()
    &&& content(all[h]) == name
    &&& forall|m: int| h < m <= i ==> !header(#[trigger] all[m])
}

/// Whether the line of a setting stands in a section.
pub open spec fn stands(all: Seq<Seq<char>>, j: int, name: Seq<char>, line: Seq<char>) -> bool {
    0 <= j < all.len() && all[j] == line && under(all, j, name)
}

/// Whether lines are the networks of a text with the default routes in halves.
pub open spec fn routes_of(value: Seq<char>) -> Seq<char> {
    join(routes(networks(split_at_each(value, ','))->0), ", "@)
}

/// Whether a setting of the user stands in the lines of another text: a key, the addresses and the
/// name servers with the user's own value, and the routes as such.
pub open spec fn carried(all: Seq<Seq<char>>, i: int, text: Seq<Seq<char>>) -> bool {
    let key = name_on(all[i]);
    let value = value_on(all[i]);
    &&& under(all, i, "[Interface]"@) && (key == "PrivateKey"@ || key == "Address"@ || key
        == "DNS"@) ==> exists|j: int| #[trigger]
        stands(text, j, "[Interface]"@, key + " = "@ + value)
    &&& under(all, i, "[Peer]"@) && (key == "PublicKey"@ || key == "PresharedKey"@) ==> exists|
        j: int,
    | #[trigger]
        stands(text, j, "[Peer]"@, key + " = "@ + value)
    &&& under(all, i, "[Peer]"@) && key == "AllowedIPs"@ ==> exists|j: int| #[trigger]
        stands(text, j, "[Peer]"@, key + " = "@ + routes_of(value))
}

/// Whether every setting of the user stands in the lines of another text.
pub open spec fn carries(input: Seq<char>, text: Seq<char>) -> bool {
    forall|i: int|
        0 <= i < lines(input).len() && sets(#[trigger] lines(input)[i]) ==> carried(
            lines(input),
            i,
            lines(text),
        )
}

proof fn lemma_under(all: Seq<Seq<char>>, i: int, a: int, b: int)
    requires
        acceptable(all, a, b),
        0 <= i < all.len(),
        sets(all[i]),
    ensures
        under(all, i, "[Interface]"@) <==> a < i < b,
        under(all, i, "[Peer]"@) <==> b < i,
{
    lemma_names();
    assert(good_at(all, i, a, b));
    assert(i != a && i != b);
    if i > b {
        assert(heads(all, b, i, "[Peer]"@));
    } else {
        assert(heads(all, a, i, "[Interface]"@));
    }
    if under(all, i, "[Interface]"@) {
        let h = choose|h: int| #[trigger] heads(all, h, i, "[Interface]"@);
        assert(header(all[h]));
        if i > b {
            assert(!header(all[b]));
        }
    }
    if under(all, i, "[Peer]"@) {
        let h = choose|h: int| #[trigger] heads(all, h, i, "[Peer]"@);
        assert(header(all[h]));
    }
}

/// Each setting of an accepted configuration is kept under its section: a key, which decodes to 32
/// bytes, the addresses and the name servers with the user's own value, and the routes as such.
/// The port is the user's.
pub proof fn settings_of_the_user_are_kept(input: Seq<char>, i: int)
    requires
        understood(input) is Ok,
        0 <= i < lines(input).len(),
        sets(lines(input)[i]),
    ensures
        ({
            let v = understood(input)->Ok_0;
            let all = lines(input);
            let key = name_on(all[i]);
            let value = value_on(all[i]);
            let interface = under(all, i, "[Interface]"@);
            let peer = under(all, i, "[Peer]"@);
            &&& interface != peer
            &&& setting(all[i]) is Some && value.len() > 0
            &&& interface && (key == "PrivateKey"@ || key == "Address"@ || key == "DNS"@)
                ==> v.interface.contains(key + " = "@ + value)
            &&& peer && (key == "PublicKey"@ || key == "PresharedKey"@) ==> v.peer.contains(
                key + " = "@ + value,
            )
            &&& peer && key == "AllowedIPs"@ ==> v.peer.contains(key + " = "@ + routes_of(value))
            &&& (interface && key == "PrivateKey"@) || (peer && (key == "PublicKey"@ || key
                == "PresharedKey"@)) ==> (base64_bytes(value) matches Some(bytes) && bytes.len()
                == 32)
            &&& interface && key == "ListenPort"@ ==> number_of(value, 65535) == Ok::<
                _,
                NumberFault,
            >(v.port as nat)
        }),
{
    let all = lines(input);
    let (a, b) = lemma_understood(input);
    lemma_under(all, i, a, b);
    lemma_names();
    assert(good_at(all, i, a, b));
    assert(kept_at(all, i, b, understood(input)->Ok_0));
    lemma_key_names();
}

proof fn lemma_key_names()
    ensures
        "PrivateKey"@ != "Address"@ && "PrivateKey"@ != "DNS"@ && "PrivateKey"@ != "ListenPort"@
            && "PrivateKey"@ != "MTU"@,
        "PublicKey"@ != "AllowedIPs"@ && "PublicKey"@ != "Endpoint"@ && "PublicKey"@
            != "PersistentKeepalive"@,
        "PresharedKey"@ != "AllowedIPs"@ && "PresharedKey"@ != "Endpoint"@ && "PresharedKey"@
            != "PersistentKeepalive"@,
{
    reveal_strlit("PrivateKey");
    reveal_strlit("Address");
    reveal_strlit("DNS");
    reveal_strlit("ListenPort");
    reveal_strlit("MTU");
    reveal_strlit("PublicKey");
    reveal_strlit("PresharedKey");
    reveal_strlit("AllowedIPs");
    reveal_strlit("Endpoint");
    reveal_strlit("PersistentKeepalive");
    assert("PrivateKey"@.len() == 10 && "Address"@.len() == 7 && "DNS"@.len() == 3);
    assert("ListenPort"@.len() == 10 && "MTU"@.len() == 3 && "PublicKey"@.len() == 9);
    assert("PresharedKey"@.len() == 12 && "AllowedIPs"@.len() == 10 && "Endpoint"@.len() == 8);
    assert("PersistentKeepalive"@.len() == 19);
    assert("PrivateKey"@[0] != "ListenPort"@[0]);
}

/// What is kept of an accepted configuration comes from the user, line for line.
pub proof fn nothing_else_is_kept(input: Seq<char>, j: int, peer: bool)
    requires
        understood(input) is Ok,
        0 <= j,
        peer ==> j < understood(input)->Ok_0.peer.len(),
        !peer ==> j < understood(input)->Ok_0.interface.len(),
    ensures
        ({
            let v = understood(input)->Ok_0;
            let line = if peer {
                v.peer[j]
            } else {
                v.interface[j]
            };
            exists|i: int|
                0 <= i < lines(input).len() && sets(#[trigger] lines(input)[i]) && under(
                    lines(input),
                    i,
                    if peer {
                        "[Peer]"@
                    } else {
                        "[Interface]"@
                    },
                ) && (line == name_on(lines(input)[i]) + " = "@ + value_on(lines(input)[i]) || (peer
                    && line == "AllowedIPs"@ + " = "@ + routes_of(value_on(lines(input)[i]))))
        }),
{
    let all = lines(input);
    let n = all.len() as int;
    let v = understood(input)->Ok_0;
    let (a, b) = lemma_understood(input);
    let line = if peer {
        v.peer[j]
    } else {
        v.interface[j]
    };
    assert(stems(all, n, b, peer, line));
    let i = choose|i: int|
        0 <= i < n && sets(#[trigger] all[i]) && (b >= 0 && i > b) == peer && setting(all[i]) is Some
            && outcome(peer, name_on(all[i]), value_on(all[i])) == Some(line);
    assert(good_at(all, i, a, b));
    lemma_under(all, i, a, b);
    lemma_names();
    assert(sets(lines(input)[i]));
}

/// Without a port of the user there is none.
pub proof fn ports_are_the_users(input: Seq<char>)
    requires
        understood(input) is Ok,
        understood(input)->Ok_0.port != 0,
    ensures
        exists|i: int|
            0 <= i < lines(input).len() && sets(#[trigger] lines(input)[i]) && name_on(
                lines(input)[i],
            ) == "ListenPort"@,
{
    let all = lines(input);
    let (a, b) = lemma_understood(input);
    let i = choose|i: int|
        -1 < i < all.len() && 0 <= i < all.len() && sets(#[trigger] all[i]) && (setting(all[i]) matches Some(
            (k, _),
        ) && k == "ListenPort"@);
    assert(sets(lines(input)[i]));
}

/// Each network is routed by itself: a default route of either family as its two halves, any other
/// as it is, in the order in which they are listed.
pub proof fn networks_are_routed_one_by_one(x: Seq<Seq<char>>, y: Seq<Seq<char>>, net: Seq<char>)
    ensures
        routes(x + y) == routes(x) + routes(y),
        routes(seq!["0.0.0.0/0"@]) == seq!["0.0.0.0/1"@, "128.0.0.0/1"@],
        routes(seq!["::/0"@]) == seq!["::/1"@, "8000::/1"@],
        net != "0.0.0.0/0"@ && net != "::/0"@ ==> routes(seq![net]) == seq![net],
    decreases y.len(),
{
    reveal_strlit("0.0.0.0/0");
    reveal_strlit("::/0");
    assert("0.0.0.0/0"@.len() != "::/0"@.len());
    lemma_one_route("0.0.0.0/0"@);
    lemma_one_route("::/0"@);
    lemma_one_route(net);
    if y.len() == 0 {
        assert(x + y =~= x);
        assert(routes(x) + routes(y) =~= routes(x));
    } else {
        networks_are_routed_one_by_one(x, y.drop_last(), net);
        assert((x + y).drop_last() =~= x + y.drop_last());
        assert((x + y).last() == y.last());
        assert(routes(x + y) =~= routes(x) + routes(y));
    }
}

proof fn lemma_one_route(net: Seq<char>)
    ensures
        routes(seq![net]) == halves(net),
{
    reveal_with_fuel(routes, 2);
    assert(seq![net].drop_last() =~= Seq::<Seq<char>>::empty());
    assert(routes(seq![net]) =~= halves(net));
}

proof fn lemma_interface_line(
    v: SettingsView,
    endpoint: SocketAddr,
    mtu: u16,
    port: u16,
    line: Seq<char>,
)
    requires
        faithful(v),
        missing(v) is None,
        v.interface.contains(line),
    ensures
        exists|j: int| #[trigger]
            stands(lines(configuration(v, endpoint, mtu, port)), j, "[Interface]"@, line),
{
    prepared_lines(v, endpoint, mtu, port);
    lemma_header_contents();
    let all = document_lines(v, endpoint, mtu, port);
    let k = choose|k: int| 0 <= k < v.interface.len() && v.interface[k] == line;
    assert forall|m: int| 0 < m <= k + 1 implies !header(#[trigger] all[m]) by {
        assert(all[m] == v.interface[m - 1]);
        assert(kept(Section::Interface, v.interface[m - 1]));
    }
    assert(all[k + 1] == v.interface[k]);
    assert(all[0] == "[Interface]"@);
    assert(heads(all, 0, k + 1, "[Interface]"@));
    assert(stands(all, k + 1, "[Interface]"@, line));
}

proof fn lemma_peer_line(
    v: SettingsView,
    endpoint: SocketAddr,
    mtu: u16,
    port: u16,
    line: Seq<char>,
)
    requires
        faithful(v),
        missing(v) is None,
        v.peer.contains(line),
    ensures
        exists|j: int| #[trigger]
            stands(lines(configuration(v, endpoint, mtu, port)), j, "[Peer]"@, line),
{
    prepared_lines(v, endpoint, mtu, port);
    lemma_header_contents();
    let all = document_lines(v, endpoint, mtu, port);
    let k = choose|k: int| 0 <= k < v.peer.len() && v.peer[k] == line;
    let h = v.interface.len() as int + 4;
    assert(middle_lines(mtu, port).len() == 4);
    assert(all[h] == middle_lines(mtu, port)[3]);
    assert forall|m: int| h < m <= h + 1 + k implies !header(#[trigger] all[m]) by {
        assert(all[m] == v.peer[m - h - 1]);
        assert(kept(Section::Peer, v.peer[m - h - 1]));
    }
    assert(all[h + 1 + k] == v.peer[k]);
    assert(last_lines(endpoint).len() == 2);
    assert(heads(all, h, h + 1 + k, "[Peer]"@));
    assert(stands(all, h + 1 + k, "[Peer]"@, line));
}

proof fn lemma_header_contents()
    ensures
        content("[Interface]"@) == "[Interface]"@,
        content("[Peer]"@) == "[Peer]"@,
{
    reveal_strlit("[Interface]");
    reveal_strlit("[Peer]");
    crate::pieces::lemma_index_of_is("[Interface]"@, '#', "[Interface]"@.len() as int);
    assert("[Interface]"@.take("[Interface]"@.len() as int) =~= "[Interface]"@);
    crate::pieces::lemma_tight_is_trimmed("[Interface]"@);
    crate::pieces::lemma_index_of_is("[Peer]"@, '#', "[Peer]"@.len() as int);
    assert("[Peer]"@.take("[Peer]"@.len() as int) =~= "[Peer]"@);
    crate::pieces::lemma_tight_is_trimmed("[Peer]"@);
}

/// Each key, the addresses, the name servers and the routes of an accepted configuration stand in
/// the text that is prepared from it, under their section.
pub proof fn settings_of_the_user_are_carried(
    input: Seq<char>,
    endpoint: SocketAddr,
    mtu: u16,
    port: u16,
)
    requires
        understood(input) is Ok,
        faithful(understood(input)->Ok_0),
    ensures
        carries(input, configuration(understood(input)->Ok_0, endpoint, mtu, port)),
{
    let v = understood(input)->Ok_0;
    let all = lines(input);
    let text = lines(configuration(v, endpoint, mtu, port));
    lemma_key_names();
    assert forall|i: int| 0 <= i < all.len() && sets(#[trigger] lines(input)[i]) implies carried(
        all,
        i,
        text,
    ) by {
        settings_of_the_user_are_kept(input, i);
        let key = name_on(all[i]);
        let plain = key + " = "@ + value_on(all[i]);
        let routed = key + " = "@ + routes_of(value_on(all[i]));
        if v.interface.contains(plain) {
            lemma_interface_line(v, endpoint, mtu, port, plain);
        }
        if v.peer.contains(plain) {
            lemma_peer_line(v, endpoint, mtu, port, plain);
        }
        if v.peer.contains(routed) {
            lemma_peer_line(v, endpoint, mtu, port, routed);
        }
    }
}

} // verus!
