//! The lines of a prepared WireGuard configuration, and what reading them again gives.
use crate::net::{address_char, socket_string, socket_strings_are_plain, SocketAddr};
use crate::numbers::{decimal, decimal_is_read_back, decimal_round_trip};
use crate::outside::{base64_bytes, canonical, network, network_char};
use crate::pieces::{
    index_of, join, lacks, lemma_breaks_append, lemma_index_of_first, lemma_index_of_is,
    lemma_joined_lines, lemma_lines_of_breaks, lemma_padded_is_trimmed, lemma_split_joined,
    lemma_tight_is_trimmed, lemma_trimmed, lines, one_line, split_at_each, split_first, tight,
    trimmed, with_breaks,
};
use crate::text::{digit, letter};
use crate::wgconfig::{
    after_line, after_lines, after_setting, all_addresses, configuration, content, examined,
    field_of, found_routable, halves, missing, networks, no_settings, noted, other_routes_are_kept,
    routable, routes, routes_hold_no_default_route, source_port, understood, with_line, written, Field,
    FoundView, Section, SettingsView, WgErrorKind,
};
use vstd::prelude::*;

verus! {

// ---------------------------------------------------------------- settings on lines

/// The name and the value of the setting on a line.
pub open spec fn setting(raw: Seq<char>) -> Option<(Seq<char>, Seq<char>)> {
    let line = content(raw);
    if line.len() == 0 || line[0] == '[' {
        None
    } else {
        match split_first(line, '=') {
            None => None,
            Some((key, value)) => Some((trimmed(key), trimmed(value))),
        }
    }
}

/// The name of the setting on a line.
pub open spec fn key_of(raw: Seq<char>) -> Option<Seq<char>> {
    match setting(raw) {
        Some((key, _)) => Some(key),
        None => None,
    }
}

/// Whether a setting is written out with a value of the user's.
pub open spec fn lined(field: Field) -> bool {
    field is Key || field is Addresses || field is Routes || field is Dns
}

/// Whether a line is one setting of a section that, wherever it is read for the first time, is
/// accepted and written out as it stands.
pub open spec fn kept(section: Section, raw: Seq<char>) -> bool {
    &&& one_line(raw)
    &&& key_of(raw) is Some
    &&& lined(field_of(section, key_of(raw)->0))
    &&& forall|v: SettingsView|
        v.section == section && !v.seen.contains((section, key_of(raw)->0))
            ==> #[trigger] after_line(v, raw) == Ok::<_, (WgErrorKind, Seq<char>)>(
            with_line(noted(v, key_of(raw)->0), raw),
        )
}

/// Whether the lines of a section are kept, each of another name, and for just the names that were
/// set.
pub open spec fn kept_lines(
    section: Section,
    all: Seq<Seq<char>>,
    seen: Seq<(Section, Seq<char>)>,
) -> bool {
    &&& forall|i: int| 0 <= i < all.len() ==> kept(section, #[trigger] all[i])
    &&& forall|i: int, j: int|
        0 <= i < j < all.len() ==> key_of(#[trigger] all[i]) != key_of(#[trigger] all[j])
    &&& forall|k: Seq<char>| #[trigger]
        seen.contains((section, k)) && lined(field_of(section, k)) ==> has_key(all, k)
    &&& forall|i: int|
        0 <= i < all.len() ==> seen.contains((section, key_of(#[trigger] all[i])->0))
}

/// Whether a line sets a name.
pub open spec fn has_key(all: Seq<Seq<char>>, k: Seq<char>) -> bool {
    exists|i: int| 0 <= i < all.len() && key_of(#[trigger] all[i]) == Some(k)
}

/// Whether what is to be written out of the settings is read as the same again.
pub open spec fn faithful(v: SettingsView) -> bool {
    kept_lines(Section::Interface, v.interface, v.seen) && kept_lines(Section::Peer, v.peer, v.seen)
}

/// Whether a text is made of letters.
pub open spec fn lettered(s: Seq<char>) -> bool {
    s.len() > 0 && forall|i: int| 0 <= i < s.len() ==> letter(#[trigger] s[i])
}

proof fn lemma_lined_names(section: Section, key: Seq<char>)
    requires
        lined(field_of(section, key)),
    ensures
        lettered(key),
{
    reveal_strlit("PrivateKey");
    reveal_strlit("Address");
    reveal_strlit("DNS");
    reveal_strlit("PublicKey");
    reveal_strlit("PresharedKey");
    reveal_strlit("AllowedIPs");
}

proof fn lemma_own_names()
    ensures
        lettered("ListenPort"@),
        lettered("MTU"@),
        lettered("Endpoint"@),
        lettered("PersistentKeepalive"@),
        field_of(Section::Interface, "ListenPort"@) == Field::ListenPort,
        field_of(Section::Interface, "MTU"@) == Field::Replaced,
        field_of(Section::Peer, "Endpoint"@) == Field::Replaced,
        field_of(Section::Peer, "PersistentKeepalive"@) == Field::Replaced,
        "ListenPort"@ != "MTU"@,
        "Endpoint"@ != "PersistentKeepalive"@,
        "ListenPort"@ != "Endpoint"@,
        "ListenPort"@ != "PersistentKeepalive"@,
        "MTU"@ != "Endpoint"@,
        "MTU"@ != "PersistentKeepalive"@,
        !lined(field_of(Section::Peer, "ListenPort"@)),
        !lined(field_of(Section::Peer, "MTU"@)),
        !lined(field_of(Section::Interface, "Endpoint"@)),
        !lined(field_of(Section::Interface, "PersistentKeepalive"@)),
{
    reveal_strlit("ListenPort");
    reveal_strlit("MTU");
    reveal_strlit("Endpoint");
    reveal_strlit("PersistentKeepalive");
    reveal_strlit("PrivateKey");
    reveal_strlit("Address");
    reveal_strlit("DNS");
    reveal_strlit("PublicKey");
    reveal_strlit("PresharedKey");
    reveal_strlit("AllowedIPs");
    assert("ListenPort"@[0] == 'L' && "PrivateKey"@[0] == 'P' && "AllowedIPs"@[0] == 'A');
    assert("MTU"@[0] == 'M' && "DNS"@[0] == 'D' && "Address"@[0] == 'A');
    assert("Endpoint"@[0] == 'E' && "PublicKey"@[0] == 'P' && "PresharedKey"@[0] == 'P');
    assert("PersistentKeepalive"@.len() == 19 && "PresharedKey"@.len() == 12);
}

/// The setting on a line that was written is the one that was written.
pub proof fn written_settings_are_read_back(key: Seq<char>, value: Seq<char>)
    requires
        lettered(key),
        tight(value),
        lacks(value, '#'),
        lacks(value, '\n'),
    ensures
        setting(written(key, value)) == Some((key, value)),
        content(written(key, value)) == written(key, value),
        split_first(written(key, value), '=') == Some((key + seq![' '], seq![' '] + value)),
        trimmed(key + seq![' ']) == key,
        trimmed(seq![' '] + value) == value,
        written(key, value).len() > 0,
        written(key, value)[0] != '[',
        one_line(written(key, value)),
{
    reveal_strlit(" = ");
    let line = written(key, value);
    let n = key.len() as int;
    assert(letter(key[0]) && letter(key[n - 1]));
    assert(tight(key));
    assert(line =~= key + seq![' ', '=', ' '] + value);
    assert forall|i: int| 0 <= i < line.len() implies #[trigger] line[i] != '#' && line[i]
        != '\n' by {
        if i < n {
            assert(letter(key[i]));
        } else if i >= n + 3 {
            assert(line[i] == value[i - n - 3]);
        }
    }
    lemma_index_of_is(line, '#', line.len() as int);
    assert(line.take(line.len() as int) =~= line);
    assert(line[0] == key[0] && line.last() == value.last());
    assert(tight(line));
    lemma_tight_is_trimmed(line);
    assert forall|i: int| 0 <= i < n + 1 implies #[trigger] line[i] != '=' by {
        if i < n {
            assert(letter(key[i]));
        }
    }
    lemma_index_of_is(line, '=', n + 1);
    assert(line.take(n + 1) =~= key + seq![' ']);
    assert(line.skip(n + 2) =~= seq![' '] + value);
    lemma_padded_is_trimmed(key);
    lemma_padded_is_trimmed(value);
}

/// What a value of a field is written out as.
pub open spec fn own_value(field: Field, value: Seq<char>, found: FoundView) -> Seq<char> {
    if field is Routes {
        join(routes(found->Networks_0->0), ", "@)
    } else {
        value
    }
}

/// Whether a value of a field that is written out is accepted, and written out as itself.
pub open spec fn settles(field: Field, value: Seq<char>) -> bool {
    match field {
        Field::Key => base64_bytes(value) matches Some(bytes) && bytes.len() == 32,
        Field::Addresses => networks(split_at_each(value, ',')) is Some,
        Field::Routes => networks(split_at_each(value, ',')) matches Some(nets) && join(
            routes(nets),
            ", "@,
        ) == value,
        Field::Dns => all_addresses(value),
        _ => false,
    }
}

proof fn lemma_kept(section: Section, key: Seq<char>, value: Seq<char>)
    requires
        lined(field_of(section, key)),
        settles(field_of(section, key), value),
        tight(value),
        lacks(value, '#'),
        lacks(value, '\n'),
    ensures
        kept(section, written(key, value)),
        key_of(written(key, value)) == Some(key),
{
    lemma_lined_names(section, key);
    written_settings_are_read_back(key, value);
}

// ---------------------------------------------------------------- routes

proof fn lemma_routes_canonical(nets: Seq<Seq<char>>)
    requires
        forall|i: int| 0 <= i < nets.len() ==> routable(#[trigger] nets[i]),
    ensures
        forall|i: int| 0 <= i < routes(nets).len() ==> canonical(#[trigger] routes(nets)[i]),
        nets.len() > 0 ==> routes(nets).len() > 0,
    decreases nets.len(),
{
    if nets.len() > 0 {
        let head = nets.drop_last();
        assert forall|i: int| 0 <= i < head.len() implies routable(#[trigger] head[i]) by {
            assert(head[i] == nets[i]);
        }
        lemma_routes_canonical(head);
        assert(routable(nets[nets.len() - 1]));
        let before = routes(head);
        let last = halves(nets.last());
        assert forall|i: int| 0 <= i < routes(nets).len() implies canonical(
            #[trigger] routes(nets)[i],
        ) by {
            if i < before.len() {
                assert(routes(nets)[i] == before[i]);
            } else {
                assert(routes(nets)[i] == last[i - before.len()]);
            }
        }
    }
}

proof fn lemma_canonical_is_plain(net: Seq<char>)
    requires
        canonical(net),
    ensures
        tight(net),
        lacks(net, ','),
        lacks(net, '#'),
        lacks(net, '\n'),
{
    assert(network_char(net[0]) && network_char(net[net.len() - 1]));
    assert forall|i: int| 0 <= i < net.len() implies #[trigger] net[i] != ',' && net[i] != '#'
        && net[i] != '\n' by {
        assert(network_char(net[i]));
    }
}

proof fn lemma_joined_plain(parts: Seq<Seq<char>>)
    requires
        parts.len() > 0,
        forall|i: int| 0 <= i < parts.len() ==> canonical(#[trigger] parts[i]),
    ensures
        tight(join(parts, seq![',', ' '])),
        lacks(join(parts, seq![',', ' ']), '#'),
        lacks(join(parts, seq![',', ' ']), '\n'),
    decreases parts.len(),
{
    let sep = seq![',', ' '];
    let last = parts.last();
    assert(canonical(parts[parts.len() - 1]));
    lemma_canonical_is_plain(last);
    if parts.len() > 1 {
        let head = parts.drop_last();
        assert forall|i: int| 0 <= i < head.len() implies canonical(#[trigger] head[i]) by {
            assert(head[i] == parts[i]);
        }
        lemma_joined_plain(head);
        let before = join(head, sep);
        let whole = join(parts, sep);
        assert(whole =~= before + sep + last);
        assert forall|i: int| 0 <= i < whole.len() implies #[trigger] whole[i] != '#' && whole[i]
            != '\n' by {
            if i < before.len() {
                assert(whole[i] == before[i]);
            } else if i >= before.len() + 2 {
                assert(whole[i] == last[i - before.len() - 2]);
            }
        }
        assert(whole[0] == before[0] && whole.last() == last.last());
    }
}

/// The routes of canonical networks are written so that they are read as the same routes again.
pub proof fn written_routes_are_read_back(nets: Seq<Seq<char>>)
    requires
        nets.len() > 0,
        forall|i: int| 0 <= i < nets.len() ==> routable(#[trigger] nets[i]),
    ensures
        settles(Field::Routes, join(routes(nets), ", "@)),
        tight(join(routes(nets), ", "@)),
        lacks(join(routes(nets), ", "@), '#'),
        lacks(join(routes(nets), ", "@), '\n'),
{
    reveal_strlit(", ");
    assert(", "@ =~= seq![',', ' ']);
    let all = routes(nets);
    let value = join(all, ", "@);
    lemma_routes_canonical(nets);
    lemma_joined_plain(all);
    assert forall|i: int| 0 <= i < all.len() implies lacks(#[trigger] all[i], ',') by {
        lemma_canonical_is_plain(all[i]);
    }
    lemma_split_joined(all);
    let pieces = split_at_each(value, ',');
    assert forall|i: int| 0 <= i < pieces.len() implies trimmed(#[trigger] pieces[i]) == all[i]
        && network(trimmed(pieces[i])) == Some(all[i]) by {
        assert(canonical(all[i]));
        lemma_canonical_is_plain(all[i]);
        lemma_tight_is_trimmed(all[i]);
        lemma_padded_is_trimmed(all[i]);
    }
    assert(networks(pieces)->0 =~= all);
    routes_hold_no_default_route(nets);
    other_routes_are_kept(all);
}

// ---------------------------------------------------------------- reading keeps settings faithful

proof fn lemma_kept_push(
    section: Section,
    all: Seq<Seq<char>>,
    seen: Seq<(Section, Seq<char>)>,
    key: Seq<char>,
    line: Seq<char>,
)
    requires
        kept_lines(section, all, seen),
        !seen.contains((section, key)),
        kept(section, line),
        key_of(line) == Some(key),
    ensures
        kept_lines(section, all.push(line), seen.push((section, key))),
{
    let more = all.push(line);
    let also = seen.push((section, key));
    let n = all.len() as int;
    assert forall|i: int| 0 <= i < more.len() implies kept(section, #[trigger] more[i]) by {
        if i < n {
            assert(kept(section, all[i]));
        }
    }
    assert forall|i: int, j: int| 0 <= i < j < more.len() implies key_of(#[trigger] more[i])
        != key_of(#[trigger] more[j]) by {
        if j < n {
            assert(key_of(all[i]) != key_of(all[j]));
        } else {
            assert(seen.contains((section, key_of(all[i])->0)));
            assert(kept(section, all[i]));
        }
    }
    assert forall|k: Seq<char>| #[trigger]
        also.contains((section, k)) && lined(field_of(section, k)) implies has_key(more, k) by {
        if k == key {
            assert(key_of(more[n]) == Some(k));
        } else {
            let i = choose|i: int| 0 <= i < also.len() && also[i] == (section, k);
            assert(seen[i] == (section, k));
            assert(seen.contains((section, k)));
            let j = choose|j: int| 0 <= j < all.len() && key_of(#[trigger] all[j]) == Some(k);
            assert(key_of(more[j]) == Some(k));
        }
    }
    assert(also[seen.len() as int] == (section, key));
    assert forall|i: int| 0 <= i < more.len() implies also.contains(
        (section, key_of(#[trigger] more[i])->0),
    ) by {
        if i < n {
            assert(seen.contains((section, key_of(all[i])->0)));
            let j = choose|j: int|
                0 <= j < seen.len() && seen[j] == (section, key_of(all[i])->0);
            assert(also[j] == (section, key_of(all[i])->0));
        }
    }
}

proof fn lemma_kept_note(
    section: Section,
    all: Seq<Seq<char>>,
    seen: Seq<(Section, Seq<char>)>,
    note: (Section, Seq<char>),
)
    requires
        kept_lines(section, all, seen),
        note.0 == section ==> !lined(field_of(section, note.1)),
    ensures
        kept_lines(section, all, seen.push(note)),
{
    let also = seen.push(note);
    assert forall|k: Seq<char>| #[trigger]
        also.contains((section, k)) && lined(field_of(section, k)) implies has_key(all, k) by {
        let i = choose|i: int| 0 <= i < also.len() && also[i] == (section, k);
        assert(seen[i] == (section, k));
        assert(seen.contains((section, k)));
    }
    assert forall|i: int| 0 <= i < all.len() implies also.contains(
        (section, key_of(#[trigger] all[i])->0),
    ) by {
        assert(seen.contains((section, key_of(all[i])->0)));
        let j = choose|j: int| 0 <= j < seen.len() && seen[j] == (section, key_of(all[i])->0);
        assert(also[j] == (section, key_of(all[i])->0));
    }
}

/// Taking in a setting keeps the settings faithful, where the value is what stands on a line and
/// what was found out about it is what there is to find out.
pub proof fn lemma_faithful_setting(
    v: SettingsView,
    key: Seq<char>,
    value: Seq<char>,
    found: FoundView,
)
    requires
        faithful(v),
        value.len() > 0 ==> tight(value),
        lacks(value, '#'),
        lacks(value, '\n'),
        found == examined(field_of(v.section, key), value),
        found_routable(found),
    ensures
        after_setting(v, key, value, found) matches Ok(next) ==> faithful(next),
{
    if let Ok(next) = after_setting(v, key, value, found) {
        let field = field_of(v.section, key);
        let other = if v.section == Section::Interface {
            Section::Peer
        } else {
            Section::Interface
        };
        if lined(field) {
            let own = own_value(field, value, found);
            if field is Routes {
                let nets = found->Networks_0->0;
                lemma_index_of_first(value, ',');
                assert(split_at_each(value, ',').len() > 0);
                assert(nets.len() > 0);
                written_routes_are_read_back(nets);
            }
            lemma_kept(v.section, key, own);
            let line = written(key, own);
            assert(next == with_line(noted(v, key), line));
            if v.section == Section::Interface {
                lemma_kept_push(v.section, v.interface, v.seen, key, line);
                lemma_kept_note(other, v.peer, v.seen, (v.section, key));
            } else {
                lemma_kept_push(v.section, v.peer, v.seen, key, line);
                lemma_kept_note(other, v.interface, v.seen, (v.section, key));
            }
        } else {
            lemma_kept_note(Section::Interface, v.interface, v.seen, (v.section, key));
            lemma_kept_note(Section::Peer, v.peer, v.seen, (v.section, key));
        }
    }
}

/// What stands on a line of a setting is tight, and holds neither a comment nor a line break.
pub proof fn lemma_setting_is_plain(raw: Seq<char>)
    requires
        lacks(raw, '\n'),
    ensures
        split_first(content(raw), '=') matches Some((key, value)) ==> {
            &&& trimmed(value).len() > 0 ==> tight(trimmed(value))
            &&& lacks(trimmed(value), '#')
            &&& lacks(trimmed(value), '\n')
        },
{
    lemma_index_of_first(raw, '#');
    let head = raw.take(index_of(raw, '#'));
    assert(lacks(head, '#') && lacks(head, '\n'));
    lemma_trimmed(head);
    let line = content(raw);
    assert(lacks(line, '#') && lacks(line, '\n'));
    if let Some((key, value)) = split_first(line, '=') {
        lemma_index_of_first(line, '=');
        assert forall|i: int| 0 <= i < value.len() implies #[trigger] value[i] != '#' && value[i]
            != '\n' by {
            assert(value[i] == line[index_of(line, '=') + 1 + i]);
        }
        assert(lacks(value, '#') && lacks(value, '\n'));
        lemma_trimmed(value);
        assert(lacks(trimmed(value), '#') && lacks(trimmed(value), '\n'));
    }
}

// ---------------------------------------------------------------- reading lines again

pub(crate) proof fn lemma_after_append(v: SettingsView, a: Seq<Seq<char>>, b: Seq<Seq<char>>)
    ensures
        after_lines(v, a + b) == match after_lines(v, a) {
            Ok(next) => after_lines(next, b),
            Err(e) => Err(e),
        },
    decreases a.len(),
{
    if a.len() == 0 {
        assert(a + b =~= b);
    } else {
        assert((a + b).skip(1) =~= a.skip(1) + b);
        if let Ok(next) = after_line(v, a[0]) {
            lemma_after_append(next, a.skip(1), b);
        }
    }
}

/// The names that lines of a section set.
pub open spec fn keys(section: Section, all: Seq<Seq<char>>) -> Seq<(Section, Seq<char>)> {
    Seq::new(all.len(), |i: int| (section, key_of(all[i])->0))
}

/// The settings with lines of their section, as they stand.
pub open spec fn with_lines(v: SettingsView, all: Seq<Seq<char>>) -> SettingsView {
    SettingsView {
        seen: v.seen + keys(v.section, all),
        interface: if v.section == Section::Interface {
            v.interface + all
        } else {
            v.interface
        },
        peer: if v.section == Section::Interface {
            v.peer
        } else {
            v.peer + all
        },
        ..v
    }
}

proof fn lemma_kept_lines_are_read(v: SettingsView, all: Seq<Seq<char>>)
    requires
        forall|i: int| 0 <= i < all.len() ==> kept(v.section, #[trigger] all[i]),
        forall|i: int, j: int|
            0 <= i < j < all.len() ==> key_of(#[trigger] all[i]) != key_of(#[trigger] all[j]),
        forall|i: int|
            0 <= i < all.len() ==> !v.seen.contains((v.section, key_of(#[trigger] all[i])->0)),
    ensures
        after_lines(v, all) == Ok::<_, (WgErrorKind, Seq<char>)>(with_lines(v, all)),
    decreases all.len(),
{
    if all.len() == 0 {
        assert(with_lines(v, all) =~= v);
    } else {
        let rest = all.skip(1);
        let key = key_of(all[0])->0;
        assert(kept(v.section, all[0]));
        assert(!v.seen.contains((v.section, key)));
        let next = with_line(noted(v, key), all[0]);
        assert(after_line(v, all[0]) == Ok::<_, (WgErrorKind, Seq<char>)>(next));
        assert(next.section == v.section && next.seen == v.seen.push((v.section, key)));
        assert forall|i: int| 0 <= i < rest.len() implies kept(v.section, #[trigger] rest[i]) by {
            assert(rest[i] == all[i + 1]);
        }
        assert forall|i: int, j: int| 0 <= i < j < rest.len() implies key_of(#[trigger] rest[i])
            != key_of(#[trigger] rest[j]) by {
            assert(key_of(all[i + 1]) != key_of(all[j + 1]));
        }
        assert forall|i: int| 0 <= i < rest.len() implies !next.seen.contains(
            (v.section, key_of(#[trigger] rest[i])->0),
        ) by {
            let own = (v.section, key_of(rest[i])->0);
            assert(rest[i] == all[i + 1]);
            assert(key_of(all[0]) != key_of(all[i + 1]));
            assert(kept(v.section, all[i + 1]));
            assert(!v.seen.contains((v.section, key_of(all[i + 1])->0)));
            if next.seen.contains(own) {
                let j = choose|j: int| 0 <= j < next.seen.len() && next.seen[j] == own;
                assert(j < v.seen.len());
                assert(v.seen[j] == own);
            }
        }
        lemma_kept_lines_are_read(next, rest);
        assert(with_lines(next, rest) =~= with_lines(v, all)) by {
            assert(v.seen.push((v.section, key)) + keys(v.section, rest) =~= v.seen + keys(
                v.section,
                all,
            ));
            if v.section == Section::Interface {
                assert(v.interface.push(all[0]) + rest =~= v.interface + all);
            } else {
                assert(v.peer.push(all[0]) + rest =~= v.peer + all);
            }
        }
    }
}

// ---------------------------------------------------------------- the lines of a configuration

/// The lines that a configuration ends its interface with, and begins its peer with.
pub open spec fn middle_lines(mtu: u16, port: u16) -> Seq<Seq<char>> {
    seq![
        written("ListenPort"@, decimal(port as nat)),
        written("MTU"@, decimal(mtu as nat)),
        Seq::empty(),
        "[Peer]"@,
    ]
}

/// The lines that a configuration ends with.
pub open spec fn last_lines(endpoint: SocketAddr) -> Seq<Seq<char>> {
    seq![
        written("Endpoint"@, socket_string(endpoint)),
        written("PersistentKeepalive"@, "25"@),
    ]
}

/// The lines of a configuration.
pub open spec fn document_lines(v: SettingsView, endpoint: SocketAddr, mtu: u16, port: u16) -> Seq<
    Seq<char>,
> {
    seq!["[Interface]"@] + v.interface + middle_lines(mtu, port) + v.peer + last_lines(endpoint)
}

proof fn lemma_decimal_plain(n: nat)
    ensures
        tight(decimal(n)),
        lacks(decimal(n), '#'),
        lacks(decimal(n), '\n'),
{
    decimal_round_trip(n);
    let d = decimal(n);
    assert(digit(d[0]) && digit(d[d.len() - 1]));
    assert forall|i: int| 0 <= i < d.len() implies #[trigger] d[i] != '#' && d[i] != '\n' by {
        assert(digit(d[i]));
    }
}

proof fn lemma_socket_plain(x: SocketAddr)
    ensures
        tight(socket_string(x)),
        lacks(socket_string(x), '#'),
        lacks(socket_string(x), '\n'),
{
    socket_strings_are_plain(x);
    let s = socket_string(x);
    assert(address_char(s[0]) && address_char(s[s.len() - 1]));
    assert forall|i: int| 0 <= i < s.len() implies #[trigger] s[i] != '#' && s[i] != '\n' by {
        assert(address_char(s[i]));
    }
}

proof fn lemma_own_lines(endpoint: SocketAddr, mtu: u16, port: u16)
    ensures
        setting(written("ListenPort"@, decimal(port as nat))) == Some(
            ("ListenPort"@, decimal(port as nat)),
        ),
        setting(written("MTU"@, decimal(mtu as nat))) == Some(("MTU"@, decimal(mtu as nat))),
        setting(written("Endpoint"@, socket_string(endpoint))) == Some(
            ("Endpoint"@, socket_string(endpoint)),
        ),
        setting(written("PersistentKeepalive"@, "25"@)) == Some(("PersistentKeepalive"@, "25"@)),
        forall|i: int|
            0 <= i < middle_lines(mtu, port).len() ==> one_line(
                #[trigger] middle_lines(mtu, port)[i],
            ),
        forall|i: int|
            0 <= i < last_lines(endpoint).len() ==> one_line(#[trigger] last_lines(endpoint)[i]),
        decimal(port as nat).len() > 0,
        decimal(mtu as nat).len() > 0,
        socket_string(endpoint).len() > 0,
        "25"@.len() > 0,
        content(Seq::empty()) == Seq::<char>::empty(),
        content("[Interface]"@) == "[Interface]"@,
        content("[Peer]"@) == "[Peer]"@,
        "[Interface]"@.len() > 0 && "[Interface]"@[0] == '[',
        "[Peer]"@.len() > 0 && "[Peer]"@[0] == '[',
        "[Peer]"@ != "[Interface]"@,
        one_line("[Interface]"@),
{
    lemma_own_names();
    lemma_decimal_plain(port as nat);
    lemma_decimal_plain(mtu as nat);
    lemma_socket_plain(endpoint);
    reveal_strlit("25");
    reveal_strlit("[Interface]");
    reveal_strlit("[Peer]");
    written_settings_are_read_back("ListenPort"@, decimal(port as nat));
    written_settings_are_read_back("MTU"@, decimal(mtu as nat));
    written_settings_are_read_back("Endpoint"@, socket_string(endpoint));
    written_settings_are_read_back("PersistentKeepalive"@, "25"@);
    let none = Seq::<char>::empty();
    assert(none.take(index_of(none, '#')) =~= none);
    assert(trimmed(none) =~= none);
    lemma_index_of_is("[Interface]"@, '#', "[Interface]"@.len() as int);
    assert("[Interface]"@.take("[Interface]"@.len() as int) =~= "[Interface]"@);
    lemma_tight_is_trimmed("[Interface]"@);
    lemma_index_of_is("[Peer]"@, '#', "[Peer]"@.len() as int);
    assert("[Peer]"@.take("[Peer]"@.len() as int) =~= "[Peer]"@);
    lemma_tight_is_trimmed("[Peer]"@);
    assert("[Peer]"@.len() != "[Interface]"@.len());
}

proof fn lemma_two_breaks(a: Seq<char>, b: Seq<char>)
    ensures
        with_breaks(seq![a, b]) == a + seq!['\n'] + b + seq!['\n'],
{
    reveal_with_fuel(with_breaks, 3);
    let all = seq![a, b];
    assert(all.skip(1) =~= seq![b]);
    assert(all.skip(1).skip(1) =~= Seq::<Seq<char>>::empty());
    assert(with_breaks(all) =~= a + seq!['\n'] + b + seq!['\n']);
}

proof fn lemma_document_text(v: SettingsView, endpoint: SocketAddr, mtu: u16, port: u16)
    requires
        v.interface.len() > 0,
        v.peer.len() > 0,
    ensures
        with_breaks(document_lines(v, endpoint, mtu, port)) == configuration(
            v,
            endpoint,
            mtu,
            port,
        ),
{
    reveal_strlit("[Interface]\n");
    reveal_strlit("[Interface]");
    reveal_strlit("\n");
    reveal_strlit("\nListenPort = ");
    reveal_strlit("ListenPort");
    reveal_strlit(" = ");
    reveal_strlit("\nMTU = ");
    reveal_strlit("MTU");
    reveal_strlit("\n\n[Peer]\n");
    reveal_strlit("[Peer]");
    reveal_strlit("\nEndpoint = ");
    reveal_strlit("Endpoint");
    reveal_strlit("\nPersistentKeepalive = 25\n");
    reveal_strlit("PersistentKeepalive");
    reveal_strlit("25");
    let br = seq!['\n'];
    assert("\n"@ =~= br);
    let first = seq!["[Interface]"@];
    let middle = middle_lines(mtu, port);
    let last = last_lines(endpoint);
    let p = decimal(port as nat);
    let m = decimal(mtu as nat);
    let e = socket_string(endpoint);
    lemma_breaks_append(first, v.interface);
    lemma_breaks_append(first + v.interface, middle);
    lemma_breaks_append(first + v.interface + middle, v.peer);
    lemma_breaks_append(first + v.interface + middle + v.peer, last);
    lemma_joined_lines(v.interface);
    lemma_joined_lines(v.peer);
    assert(with_breaks(first) =~= "[Interface]\n"@) by {
        reveal_with_fuel(with_breaks, 2);
        assert(first.skip(1) =~= Seq::<Seq<char>>::empty());
    }
    let ports = seq![middle[0], middle[1]];
    let heads = seq![middle[2], middle[3]];
    assert(ports + heads =~= middle);
    lemma_breaks_append(ports, heads);
    lemma_two_breaks(middle[0], middle[1]);
    lemma_two_breaks(middle[2], middle[3]);
    assert(last =~= seq![last[0], last[1]]);
    lemma_two_breaks(last[0], last[1]);
    assert(br + with_breaks(middle) =~= "\nListenPort = "@ + p + "\nMTU = "@ + m
        + "\n\n[Peer]\n"@);
    assert(br + with_breaks(last) =~= "\nEndpoint = "@ + e + "\nPersistentKeepalive = 25\n"@);
    let ji = join(v.interface, "\n"@);
    let jp = join(v.peer, "\n"@);
    assert(with_breaks(v.interface) == ji + br);
    assert(with_breaks(v.peer) == jp + br);
    assert(with_breaks(document_lines(v, endpoint, mtu, port)) =~= "[Interface]\n"@ + ji + (br
        + with_breaks(middle)) + jp + (br + with_breaks(last)));
}

proof fn lemma_required_lines(v: SettingsView)
    requires
        faithful(v),
        missing(v) is None,
    ensures
        has_key(v.interface, "PrivateKey"@),
        has_key(v.interface, "Address"@),
        has_key(v.peer, "PublicKey"@),
        has_key(v.peer, "AllowedIPs"@),
        v.interface.len() > 0,
        v.peer.len() > 0,
{
    assert(lined(field_of(Section::Interface, "PrivateKey"@)));
    assert(lined(field_of(Section::Interface, "Address"@)));
    assert(lined(field_of(Section::Peer, "PublicKey"@)));
    assert(lined(field_of(Section::Peer, "AllowedIPs"@)));
    assert(v.seen.contains((Section::Interface, "PrivateKey"@)));
    assert(v.seen.contains((Section::Interface, "Address"@)));
    assert(v.seen.contains((Section::Peer, "PublicKey"@)));
    assert(v.seen.contains((Section::Peer, "AllowedIPs"@)));
}

/// The lines of a prepared configuration: the sections with the settings that are kept, and one line
/// each for the port, the MTU, the endpoint and the keepalive.
pub proof fn prepared_lines(v: SettingsView, endpoint: SocketAddr, mtu: u16, port: u16)
    requires
        faithful(v),
        missing(v) is None,
    ensures
        lines(configuration(v, endpoint, mtu, port)) == document_lines(v, endpoint, mtu, port),
{
    lemma_required_lines(v);
    lemma_document_text(v, endpoint, mtu, port);
    lemma_own_lines(endpoint, mtu, port);
    let all = document_lines(v, endpoint, mtu, port);
    let a = 1 + v.interface.len();
    let b = a + 4;
    let c = b + v.peer.len();
    assert forall|i: int| 0 <= i < all.len() implies one_line(#[trigger] all[i]) by {
        if i == 0 {
        } else if i < a {
            assert(all[i] == v.interface[i - 1]);
            assert(kept(Section::Interface, v.interface[i - 1]));
        } else if i < b {
            assert(all[i] == middle_lines(mtu, port)[i - a]);
        } else if i < c {
            assert(all[i] == v.peer[i - b]);
            assert(kept(Section::Peer, v.peer[i - b]));
        } else {
            assert(all[i] == last_lines(endpoint)[i - c]);
        }
    }
    lemma_lines_of_breaks(all);
}

// ---------------------------------------------------------------- laws

proof fn lemma_setting_read(
    v: SettingsView,
    raw: Seq<char>,
    key: Seq<char>,
    value: Seq<char>,
    port: nat,
)
    requires
        setting(raw) == Some((key, value)),
        value.len() > 0,
        !v.seen.contains((v.section, key)),
        field_of(v.section, key) == Field::Replaced || (field_of(v.section, key)
            == Field::ListenPort && value == decimal(port) && port <= 0xffff),
    ensures
        after_line(v, raw) == Ok::<_, (WgErrorKind, Seq<char>)>(
            if field_of(v.section, key) == Field::Replaced {
                noted(v, key)
            } else {
                SettingsView { port: port as u16, ..noted(v, key) }
            },
        ),
{
    if port <= 0xffff {
        decimal_is_read_back(port, 0xffff);
    }
}

proof fn lemma_keys_lack(section: Section, all: Seq<Seq<char>>, other: Section, k: Seq<char>)
    requires
        forall|i: int| 0 <= i < all.len() ==> kept(section, #[trigger] all[i]),
        other != section || !lined(field_of(section, k)),
    ensures
        !keys(section, all).contains((other, k)),
{
    let own = keys(section, all);
    if own.contains((other, k)) {
        let i = choose|i: int| 0 <= i < own.len() && own[i] == (other, k);
        assert(kept(section, all[i]));
        assert(own[i] == (section, key_of(all[i])->0));
    }
}

proof fn lemma_keys_hold(section: Section, all: Seq<Seq<char>>, k: Seq<char>)
    requires
        has_key(all, k),
    ensures
        keys(section, all).contains((section, k)),
{
    let i = choose|i: int| 0 <= i < all.len() && key_of(#[trigger] all[i]) == Some(k);
    assert(keys(section, all)[i] == (section, k));
}

proof fn lemma_contains_add<A>(a: Seq<A>, b: Seq<A>, x: A)
    ensures
        (a + b).contains(x) <==> a.contains(x) || b.contains(x),
{
    let all = a + b;
    if a.contains(x) {
        let i = choose|i: int| 0 <= i < a.len() && a[i] == x;
        assert(all[i] == x);
    }
    if b.contains(x) {
        let i = choose|i: int| 0 <= i < b.len() && b[i] == x;
        assert(all[a.len() + i] == x);
    }
    if all.contains(x) {
        let i = choose|i: int| 0 <= i < all.len() && all[i] == x;
        if i < a.len() {
            assert(a[i] == x);
        } else {
            assert(b[i - a.len()] == x);
        }
    }
}

pub(crate) proof fn lemma_contains_push<A>(a: Seq<A>, y: A, x: A)
    ensures
        a.push(y).contains(x) <==> a.contains(x) || x == y,
{
    lemma_contains_add(a, seq![y], x);
    assert(a + seq![y] =~= a.push(y));
    assert(seq![y][0] == y);
}

proof fn lemma_interface_read(v: SettingsView, endpoint: SocketAddr, mtu: u16, port: u16)
    requires
        faithful(v),
    ensures
        after_lines(
            no_settings(),
            seq!["[Interface]"@] + v.interface + middle_lines(mtu, port),
        ) == Ok::<_, (WgErrorKind, Seq<char>)>(
            SettingsView {
                section: Section::Peer,
                seen: keys(Section::Interface, v.interface).push(
                    (Section::Interface, "ListenPort"@),
                ).push((Section::Interface, "MTU"@)),
                interface: v.interface,
                peer: seq![],
                port,
            },
        ),
{
    reveal_with_fuel(after_lines, 5);
    let first = seq!["[Interface]"@];
    let middle = middle_lines(mtu, port);
    lemma_own_names();
    lemma_own_lines(endpoint, mtu, port);
    let opened = SettingsView { section: Section::Interface, ..no_settings() };
    assert(first.skip(1) =~= Seq::<Seq<char>>::empty());
    assert(after_lines(no_settings(), first) == Ok::<_, (WgErrorKind, Seq<char>)>(opened));
    lemma_after_append(no_settings(), first, v.interface);
    lemma_kept_lines_are_read(opened, v.interface);
    let filled = with_lines(opened, v.interface);
    lemma_after_append(no_settings(), first + v.interface, middle);
    let own = keys(Section::Interface, v.interface);
    assert(filled.seen =~= own);
    assert(filled.interface =~= v.interface);
    lemma_keys_lack(Section::Interface, v.interface, Section::Interface, "ListenPort"@);
    lemma_keys_lack(Section::Interface, v.interface, Section::Interface, "MTU"@);
    lemma_setting_read(filled, middle[0], "ListenPort"@, decimal(port as nat), port as nat);
    let ported = SettingsView { port, ..noted(filled, "ListenPort"@) };
    lemma_contains_push(
        own,
        (Section::Interface, "ListenPort"@),
        (Section::Interface, "MTU"@),
    );
    lemma_setting_read(ported, middle[1], "MTU"@, decimal(mtu as nat), 0);
    let sized = noted(ported, "MTU"@);
    assert(after_line(sized, middle[2]) == Ok::<_, (WgErrorKind, Seq<char>)>(sized));
    let closed = SettingsView { section: Section::Peer, ..sized };
    assert(after_line(sized, middle[3]) == Ok::<_, (WgErrorKind, Seq<char>)>(closed));
    assert(middle.skip(1)[0] == middle[1]);
    assert(middle.skip(1).skip(1)[0] == middle[2]);
    assert(middle.skip(1).skip(1).skip(1)[0] == middle[3]);
    assert(middle.skip(1).skip(1).skip(1).skip(1).len() == 0);
    assert(after_lines(filled, middle) == Ok::<_, (WgErrorKind, Seq<char>)>(closed));
}

/// Preparing a prepared configuration again changes nothing: its text is read as the same lines of
/// both sections and as the port that it was prepared with.
pub proof fn prepared_text_is_stable(v: SettingsView, endpoint: SocketAddr, mtu: u16, port: u16)
    requires
        faithful(v),
        missing(v) is None,
    ensures
        understood(configuration(v, endpoint, mtu, port)) matches Ok(w) && w.interface
            == v.interface && w.peer == v.peer && w.port == port,
{
    reveal_with_fuel(after_lines, 3);
    lemma_required_lines(v);
    prepared_lines(v, endpoint, mtu, port);
    lemma_interface_read(v, endpoint, mtu, port);
    lemma_own_names();
    lemma_own_lines(endpoint, mtu, port);
    let begun = seq!["[Interface]"@] + v.interface + middle_lines(mtu, port);
    let last = last_lines(endpoint);
    let half = after_lines(no_settings(), begun)->Ok_0;
    let own = keys(Section::Interface, v.interface);
    let named = own.push((Section::Interface, "ListenPort"@));
    assert forall|k: Seq<char>| !#[trigger] half.seen.contains((Section::Peer, k)) by {
        lemma_keys_lack(Section::Interface, v.interface, Section::Peer, k);
        lemma_contains_push(own, (Section::Interface, "ListenPort"@), (Section::Peer, k));
        lemma_contains_push(named, (Section::Interface, "MTU"@), (Section::Peer, k));
    }
    lemma_kept_lines_are_read(half, v.peer);
    let full = with_lines(half, v.peer);
    assert(full.peer =~= v.peer);
    lemma_after_append(no_settings(), begun, v.peer);
    lemma_after_append(no_settings(), begun + v.peer, last);
    let theirs = keys(Section::Peer, v.peer);
    assert(full.seen == half.seen + theirs);
    lemma_keys_lack(Section::Peer, v.peer, Section::Peer, "Endpoint"@);
    lemma_keys_lack(Section::Peer, v.peer, Section::Peer, "PersistentKeepalive"@);
    lemma_contains_add(half.seen, theirs, (Section::Peer, "Endpoint"@));
    lemma_contains_add(half.seen, theirs, (Section::Peer, "PersistentKeepalive"@));
    lemma_setting_read(full, last[0], "Endpoint"@, socket_string(endpoint), 0);
    let reached = noted(full, "Endpoint"@);
    lemma_contains_push(
        full.seen,
        (Section::Peer, "Endpoint"@),
        (Section::Peer, "PersistentKeepalive"@),
    );
    lemma_setting_read(reached, last[1], "PersistentKeepalive"@, "25"@, 0);
    let end = noted(reached, "PersistentKeepalive"@);
    assert(last.skip(1)[0] == last[1]);
    assert(last.skip(1).skip(1).len() == 0);
    assert(after_lines(full, last) == Ok::<_, (WgErrorKind, Seq<char>)>(end));
    lemma_still_seen(half, own, theirs, end, Section::Interface, v.interface, "PrivateKey"@);
    lemma_still_seen(half, own, theirs, end, Section::Interface, v.interface, "Address"@);
    lemma_still_seen(half, own, theirs, end, Section::Peer, v.peer, "PublicKey"@);
    lemma_still_seen(half, own, theirs, end, Section::Peer, v.peer, "AllowedIPs"@);
}

proof fn lemma_still_seen(
    half: SettingsView,
    own: Seq<(Section, Seq<char>)>,
    theirs: Seq<(Section, Seq<char>)>,
    end: SettingsView,
    section: Section,
    all: Seq<Seq<char>>,
    k: Seq<char>,
)
    requires
        half.seen == own.push((Section::Interface, "ListenPort"@)).push(
            (Section::Interface, "MTU"@),
        ),
        end.seen == (half.seen + theirs).push((Section::Peer, "Endpoint"@)).push(
            (Section::Peer, "PersistentKeepalive"@),
        ),
        keys(section, all) == own || keys(section, all) == theirs,
        has_key(all, k),
    ensures
        end.seen.contains((section, k)),
{
    let x = (section, k);
    lemma_keys_hold(section, all, k);
    lemma_contains_push(own, (Section::Interface, "ListenPort"@), x);
    lemma_contains_push(
        own.push((Section::Interface, "ListenPort"@)),
        (Section::Interface, "MTU"@),
        x,
    );
    lemma_contains_add(half.seen, theirs, x);
    lemma_contains_push(half.seen + theirs, (Section::Peer, "Endpoint"@), x);
    lemma_contains_push(
        (half.seen + theirs).push((Section::Peer, "Endpoint"@)),
        (Section::Peer, "PersistentKeepalive"@),
        x,
    );
}

/// Whether one line sets a name to a value, and no other sets that name.
pub open spec fn sets_once(all: Seq<Seq<char>>, key: Seq<char>, value: Seq<char>) -> bool {
    exists|i: int|
        0 <= i < all.len() && #[trigger] all[i] == written(key, value) && forall|j: int|
            0 <= j < all.len() && key_of(#[trigger] all[j]) == Some(key) ==> j == i
}

/// A prepared configuration sets the port, the MTU, the endpoint and the keepalive once each, to the
/// values that it was prepared with.
pub proof fn prepared_values_are_set_once(
    v: SettingsView,
    endpoint: SocketAddr,
    mtu: u16,
    port: u16,
)
    requires
        faithful(v),
        missing(v) is None,
    ensures
        ({
            let all = lines(configuration(v, endpoint, mtu, port));
            &&& sets_once(all, "ListenPort"@, decimal(port as nat))
            &&& sets_once(all, "MTU"@, decimal(mtu as nat))
            &&& sets_once(all, "Endpoint"@, socket_string(endpoint))
            &&& sets_once(all, "PersistentKeepalive"@, "25"@)
        }),
{
    prepared_lines(v, endpoint, mtu, port);
    lemma_own_names();
    lemma_own_lines(endpoint, mtu, port);
    let all = document_lines(v, endpoint, mtu, port);
    let a: int = v.interface.len() as int + 1;
    let b: int = a + 4;
    let c: int = b + v.peer.len();
    assert(all[a] == middle_lines(mtu, port)[0]);
    assert(all[a + 1] == middle_lines(mtu, port)[1]);
    assert(all[a + 2] == middle_lines(mtu, port)[2]);
    assert(all[a + 3] == middle_lines(mtu, port)[3]);
    assert(all[c] == last_lines(endpoint)[0]);
    assert(all[c + 1] == last_lines(endpoint)[1]);
    assert forall|i: int| 1 <= i < a implies key_of(#[trigger] all[i]) is Some && lined(
        field_of(Section::Interface, key_of(all[i])->0),
    ) by {
        assert(all[i] == v.interface[i - 1]);
        assert(kept(Section::Interface, v.interface[i - 1]));
    }
    assert forall|i: int| b <= i < c implies key_of(#[trigger] all[i]) is Some && lined(
        field_of(Section::Peer, key_of(all[i])->0),
    ) by {
        assert(all[i] == v.peer[i - b]);
        assert(kept(Section::Peer, v.peer[i - b]));
    }
    assert(key_of(all[0]) is None);
    assert forall|j: int|
        0 <= j < all.len() && key_of(#[trigger] all[j]) == Some("ListenPort"@) implies j == a by {
        assert(j == 0 || 1 <= j < a || a <= j < b || b <= j < c || j == c || j == c + 1);
    }
    assert forall|j: int|
        0 <= j < all.len() && key_of(#[trigger] all[j]) == Some("MTU"@) implies j == a + 1 by {
        assert(j == 0 || 1 <= j < a || a <= j < b || b <= j < c || j == c || j == c + 1);
    }
    assert forall|j: int|
        0 <= j < all.len() && key_of(#[trigger] all[j]) == Some("Endpoint"@) implies j == c by {
        assert(j == 0 || 1 <= j < a || a <= j < b || b <= j < c || j == c || j == c + 1);
    }
    assert forall|j: int|
        0 <= j < all.len() && key_of(#[trigger] all[j]) == Some("PersistentKeepalive"@) implies j
        == c + 1 by {
        assert(j == 0 || 1 <= j < a || a <= j < b || b <= j < c || j == c || j == c + 1);
    }
}

// ---------------------------------------------------------------- lines that are replaced

/// Whether a line is a setting of a section that is accepted and replaced: an endpoint, an MTU or a
/// keepalive with some value.
pub open spec fn replaced(section: Section, raw: Seq<char>) -> bool {
    setting(raw) matches Some((key, value)) && value.len() > 0 && field_of(section, key)
        == Field::Replaced
}

/// The section that a line leads to.
pub open spec fn section_after(section: Section, raw: Seq<char>) -> Section {
    if content(raw) == "[Interface]"@ && section == Section::Start {
        Section::Interface
    } else if content(raw) == "[Peer]"@ && section == Section::Interface {
        Section::Peer
    } else {
        section
    }
}

/// Whether lines are others from a section on but for settings that are replaced: each of those is
/// taken out, or given another value.
pub open spec fn rewritten(section: Section, a: Seq<Seq<char>>, b: Seq<Seq<char>>) -> bool
    decreases a.len(),
{
    if a.len() == 0 {
        b.len() == 0
    } else if replaced(section, a[0]) {
        ||| rewritten(section, a.skip(1), b)
        ||| b.len() > 0 && replaced(section, b[0]) && key_of(b[0]) == key_of(a[0]) && rewritten(
            section,
            a.skip(1),
            b.skip(1),
        )
    } else {
        b.len() > 0 && b[0] == a[0] && rewritten(
            section_after(section, a[0]),
            a.skip(1),
            b.skip(1),
        )
    }
}

/// Whether settings are the same but for the names of settings that are replaced, of which the
/// second have set no others than the first.
pub open spec fn alike(v: SettingsView, w: SettingsView) -> bool {
    &&& v.section == w.section
    &&& v.interface == w.interface
    &&& v.peer == w.peer
    &&& v.port == w.port
    &&& forall|x: (Section, Seq<char>)| #[trigger] w.seen.contains(x) ==> v.seen.contains(x)
    &&& forall|x: (Section, Seq<char>)| #[trigger]
        v.seen.contains(x) && field_of(x.0, x.1) != Field::Replaced ==> w.seen.contains(x)
}

proof fn lemma_alike_push(v: SettingsView, w: SettingsView, key: Seq<char>)
    requires
        alike(v, w),
    ensures
        alike(noted(v, key), noted(w, key)),
{
    assert forall|x: (Section, Seq<char>)| #[trigger]
        noted(w, key).seen.contains(x) implies noted(v, key).seen.contains(x) by {
        lemma_contains_push(v.seen, (v.section, key), x);
        lemma_contains_push(w.seen, (v.section, key), x);
    }
    assert forall|x: (Section, Seq<char>)| #[trigger]
        noted(v, key).seen.contains(x) && field_of(x.0, x.1) != Field::Replaced implies noted(
        w,
        key,
    ).seen.contains(x) by {
        lemma_contains_push(v.seen, (v.section, key), x);
        lemma_contains_push(w.seen, (v.section, key), x);
    }
}

proof fn lemma_alike_skip(v: SettingsView, w: SettingsView, key: Seq<char>)
    requires
        alike(v, w),
        field_of(v.section, key) == Field::Replaced,
    ensures
        alike(noted(v, key), w),
{
    assert forall|x: (Section, Seq<char>)| #[trigger] w.seen.contains(x) implies noted(
        v,
        key,
    ).seen.contains(x) by {
        lemma_contains_push(v.seen, (v.section, key), x);
    }
    assert forall|x: (Section, Seq<char>)| #[trigger]
        noted(v, key).seen.contains(x) && field_of(x.0, x.1) != Field::Replaced implies w.seen.contains(
        x,
    ) by {
        lemma_contains_push(v.seen, (v.section, key), x);
    }
}

proof fn lemma_alike_line(v: SettingsView, w: SettingsView, raw: Seq<char>)
    requires
        alike(v, w),
        after_line(v, raw) is Ok,
    ensures
        after_line(w, raw) matches Ok(b) && alike(after_line(v, raw)->Ok_0, b),
        !replaced(v.section, raw) ==> after_line(v, raw)->Ok_0.section == section_after(
            v.section,
            raw,
        ),
        replaced(v.section, raw) ==> after_line(v, raw)->Ok_0 == noted(v, key_of(raw)->0)
            && !v.seen.contains((v.section, key_of(raw)->0)),
{
    reveal_strlit("[Interface]");
    reveal_strlit("[Peer]");
    let line = content(raw);
    if line.len() > 0 && line[0] != '[' {
        let (key, _) = split_first(line, '=')->0;
        lemma_alike_push(v, w, trimmed(key));
    }
}

proof fn lemma_rewritten(v: SettingsView, w: SettingsView, a: Seq<Seq<char>>, b: Seq<Seq<char>>)
    requires
        alike(v, w),
        after_lines(v, a) is Ok,
        rewritten(v.section, a, b),
    ensures
        after_lines(w, b) matches Ok(end) && alike(after_lines(v, a)->Ok_0, end),
    decreases a.len(),
{
    if a.len() > 0 {
        let next = after_line(v, a[0])->Ok_0;
        lemma_alike_line(v, w, a[0]);
        if replaced(v.section, a[0]) {
            let key = key_of(a[0])->0;
            if rewritten(v.section, a.skip(1), b) {
                lemma_alike_skip(v, w, key);
                lemma_rewritten(next, w, a.skip(1), b);
            } else {
                assert(!w.seen.contains((w.section, key)));
                let (_, value) = setting(b[0])->0;
                lemma_setting_read(w, b[0], key, value, 0);
                lemma_alike_push(v, w, key);
                lemma_rewritten(next, noted(w, key), a.skip(1), b.skip(1));
            }
        } else {
            lemma_rewritten(next, after_line(w, b[0])->Ok_0, a.skip(1), b.skip(1));
        }
    }
}

/// The endpoint, MTU and keepalive lines of a configuration do not matter: without them, or with
/// other values, it is understood as the same lines of both sections and the same port, so that
/// the same text is prepared.
pub proof fn replaced_lines_do_not_matter(
    a: Seq<char>,
    b: Seq<char>,
    endpoint: SocketAddr,
    mtu: u16,
    offered: Option<u16>,
)
    requires
        understood(a) is Ok,
        rewritten(Section::Start, lines(a), lines(b)),
    ensures
        understood(b) is Ok,
        source_port(understood(b)->Ok_0, endpoint, offered) == source_port(
            understood(a)->Ok_0,
            endpoint,
            offered,
        ),
        forall|port: u16| #[trigger]
            configuration(understood(b)->Ok_0, endpoint, mtu, port) == configuration(
                understood(a)->Ok_0,
                endpoint,
                mtu,
                port,
            ),
{
    lemma_rewritten(no_settings(), no_settings(), lines(a), lines(b));
    let v = understood(a)->Ok_0;
    let w = after_lines(no_settings(), lines(b))->Ok_0;
    assert(v.seen.contains((Section::Interface, "PrivateKey"@)));
    assert(v.seen.contains((Section::Interface, "Address"@)));
    assert(v.seen.contains((Section::Peer, "PublicKey"@)));
    assert(v.seen.contains((Section::Peer, "AllowedIPs"@)));
    assert(missing(w) is None);
}

} // verus!
