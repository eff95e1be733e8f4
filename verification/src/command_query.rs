//! The command-query encoder: turns a command name and ordered key/value
//! argument pairs into the canonical query string
//! `command_name?key1=value1&key2=value2&...`.
//!
//! Keys and values are percent-escaped so that they are safe inside a URI
//! query component: unreserved characters (letters, digits, `-`, `_`, `.`,
//! `~`) stand as themselves, every other character as `%XX` groups, one per
//! byte of its UTF-8 encoding, with upper-case hex digits. The caller's
//! argument order is preserved, which keeps the produced request
//! deterministic. No validation against a command schema happens here: any
//! command name and any pairs are accepted.

use vstd::prelude::*;

verus! {

/// The sixteen upper-case hex digits, in value order.
pub open spec fn hex_table() -> Seq<char> {
    seq!['0', '1', '2', '3', '4', '5', '6', '7', '8', '9', 'A', 'B', 'C', 'D', 'E', 'F']
}

/// The hex digit for a nibble.
pub open spec fn hex_char(d: u8) -> char
    recommends
        d < 16,
{
    hex_table()[d as int]
}

/// Characters that stand as themselves in a query component: ASCII letters
/// and digits and `-`, `.`, `_`, `~`.
pub open spec fn is_unreserved(c: char) -> bool {
    let u = c as u32;
    (48 <= u && u <= 57) || (65 <= u && u <= 90) || (97 <= u && u <= 122) || u == 45 || u == 46
        || u == 95 || u == 126
}

/// The UTF-8 encoding of one character, one to four bytes.
pub open spec fn utf8_bytes_of(c: char) -> Seq<u8> {
    let u = c as u32;
    if u < 0x80 {
        seq![u as u8]
    } else if u < 0x800 {
        seq![(0xC0 + u / 0x40) as u8, (0x80 + u % 0x40) as u8]
    } else if u < 0x10000 {
        seq![(0xE0 + u / 0x1000) as u8, (0x80 + (u / 0x40) % 0x40) as u8, (0x80 + u % 0x40) as u8]
    } else {
        seq![
            (0xF0 + u / 0x40000) as u8,
            (0x80 + (u / 0x1000) % 0x40) as u8,
            (0x80 + (u / 0x40) % 0x40) as u8,
            (0x80 + u % 0x40) as u8,
        ]
    }
}

/// `%XX` groups, one per byte.
pub open spec fn percent_encoded(bs: Seq<u8>) -> Seq<char>
    decreases bs.len(),
{
    if bs.len() == 0 {
        Seq::empty()
    } else {
        seq!['%', hex_char(bs[0] / 16), hex_char(bs[0] % 16)] + percent_encoded(bs.drop_first())
    }
}

/// How one character reads after escaping.
pub open spec fn escaped_char(c: char) -> Seq<char> {
    if is_unreserved(c) {
        seq![c]
    } else {
        percent_encoded(utf8_bytes_of(c))
    }
}

/// How a whole string reads after escaping.
pub open spec fn escaped(s: Seq<char>) -> Seq<char>
    decreases s.len(),
{
    if s.len() == 0 {
        Seq::empty()
    } else {
        escaped_char(s[0]) + escaped(s.drop_first())
    }
}

/// One escaped `key=value` pair.
pub open spec fn encoded_pair(p: (Seq<char>, Seq<char>)) -> Seq<char> {
    escaped(p.0) + seq!['='] + escaped(p.1)
}

/// The escaped pairs joined with `&`.
pub open spec fn encoded_args(args: Seq<(Seq<char>, Seq<char>)>) -> Seq<char>
    decreases args.len(),
{
    if args.len() == 0 {
        Seq::empty()
    } else if args.len() == 1 {
        encoded_pair(args[0])
    } else {
        encoded_pair(args[0]) + seq!['&'] + encoded_args(args.drop_first())
    }
}

/// The full query string: the command name alone when there are no
/// arguments, otherwise the name, `?`, and the joined pairs.
pub open spec fn encoded_query(command: Seq<char>, args: Seq<(Seq<char>, Seq<char>)>) -> Seq<
    char,
> {
    if args.len() == 0 {
        command
    } else {
        command + seq!['?'] + encoded_args(args)
    }
}

/// The argument pairs as sequences of characters.
pub open spec fn args_view(args: Seq<(String, String)>) -> Seq<(Seq<char>, Seq<char>)> {
    args.map_values(|p: (String, String)| (p.0@, p.1@))
}

/// Whether `c` is one of the sixteen upper-case hex digits.
pub open spec fn is_hex_digit(c: char) -> bool {
    c == '0' || c == '1' || c == '2' || c == '3' || c == '4' || c == '5' || c == '6' || c == '7'
        || c == '8' || c == '9' || c == 'A' || c == 'B' || c == 'C' || c == 'D' || c == 'E' || c
        == 'F'
}

/// The nibble a hex digit stands for.
pub open spec fn hex_value(c: char) -> u8
    recommends
        is_hex_digit(c),
{
    if c == '0' {
        0
    } else if c == '1' {
        1
    } else if c == '2' {
        2
    } else if c == '3' {
        3
    } else if c == '4' {
        4
    } else if c == '5' {
        5
    } else if c == '6' {
        6
    } else if c == '7' {
        7
    } else if c == '8' {
        8
    } else if c == '9' {
        9
    } else if c == 'A' {
        10
    } else if c == 'B' {
        11
    } else if c == 'C' {
        12
    } else if c == 'D' {
        13
    } else if c == 'E' {
        14
    } else {
        15
    }
}

/// Reads an escaped component back: each `%XX` group becomes the single
/// code point `XX`, every other character stands for itself; absent when a
/// `%` is not followed by two hex digits. For ASCII text — where UTF-8
/// encoding is the identity — this inverts `escaped` exactly.
pub open spec fn unescape(s: Seq<char>) -> Option<Seq<char>>
    decreases s.len(),
{
    if s.len() == 0 {
        Some(Seq::empty())
    } else if s[0] == '%' {
        if s.len() >= 3 && is_hex_digit(s[1]) && is_hex_digit(s[2]) {
            let b = (hex_value(s[1]) * 16 + hex_value(s[2])) as u8;
            match unescape(s.skip(3)) {
                Some(t) => Some(seq![b as char] + t),
                None => None,
            }
        } else {
            None
        }
    } else {
        match unescape(s.drop_first()) {
            Some(t) => Some(seq![s[0]] + t),
            None => None,
        }
    }
}

/// Escaping changes nothing on text made of unreserved characters: such a
/// key or value reads in the query string exactly as it was given.
pub proof fn lemma_escaped_unreserved_identity(s: Seq<char>)
    requires
        forall|i: int| 0 <= i < s.len() ==> is_unreserved(s[i]),
    ensures
        escaped(s) == s,
    decreases s.len(),
{
    if s.len() == 0 {
        assert(escaped(s) =~= s);
    } else {
        lemma_escaped_unreserved_identity(s.drop_first());
        assert(escaped(s) == seq![s[0]] + s.drop_first());
        assert(seq![s[0]] + s.drop_first() =~= s);
    }
}

proof fn lemma_hex_value_of_char(d: u8)
    requires
        d < 16,
    ensures
        is_hex_digit(hex_char(d)),
        hex_value(hex_char(d)) == d,
        hex_char(d) != '%',
{
}

/// Escaping ASCII text loses nothing: reading the escaped form back
/// recovers the original character for character. Keys and values — ASCII
/// in every engine command — therefore round-trip through the query string.
pub proof fn lemma_unescape_escaped(s: Seq<char>)
    requires
        forall|i: int| 0 <= i < s.len() ==> (s[i] as u32) < 0x80,
    ensures
        unescape(escaped(s)) == Some(s),
    decreases s.len(),
{
    if s.len() == 0 {
        assert(escaped(s) =~= Seq::<char>::empty());
    } else {
        let c = s[0];
        let rest = s.drop_first();
        lemma_unescape_escaped(rest);
        let e = escaped(s);
        assert(e == escaped_char(c) + escaped(rest));
        if is_unreserved(c) {
            assert(escaped_char(c) == seq![c]);
            assert(e[0] == c);
            assert(c != '%') by {
                assert('%' as u32 == 37);
            }
            assert(e.drop_first() =~= escaped(rest));
            assert(unescape(e) == Some(seq![c] + rest));
            assert(seq![c] + rest =~= s);
        } else {
            let u = c as u32;
            let b = u as u8;
            assert(utf8_bytes_of(c) == seq![b]);
            lemma_percent_encoded_small(utf8_bytes_of(c));
            assert(escaped_char(c) =~= seq!['%', hex_char(b / 16), hex_char(b % 16)]);
            lemma_hex_value_of_char(b / 16);
            lemma_hex_value_of_char(b % 16);
            assert(e[0] == '%');
            assert(e[1] == hex_char(b / 16));
            assert(e[2] == hex_char(b % 16));
            assert(e.len() >= 3);
            assert(e.skip(3) =~= escaped(rest));
            assert(hex_value(e[1]) * 16 + hex_value(e[2]) == b);
            vstd::utf8::char_u32_cast(c, u);
            assert(b == u);
            assert((b as char) == c);
            assert(unescape(e) == Some(seq![c] + rest));
            assert(seq![c] + rest =~= s);
        }
    }
}

/// Escaping never produces the separators `?`, `&` or `=`: they are not
/// unreserved, so they only ever appear escaped as `%3F`, `%26` and `%3D`.
/// The separators of the produced query string are therefore unambiguous.
pub proof fn lemma_escaped_has_no_separators(s: Seq<char>)
    ensures
        forall|i: int|
            0 <= i < escaped(s).len() ==> escaped(s)[i] != '?' && escaped(s)[i] != '&' && escaped(
                s,
            )[i] != '=',
    decreases s.len(),
{
    if s.len() > 0 {
        lemma_escaped_has_no_separators(s.drop_first());
        lemma_escaped_char_has_no_separators(s[0]);
        let head = escaped_char(s[0]);
        let tail = escaped(s.drop_first());
        assert(escaped(s) == head + tail);
        assert forall|i: int|
            0 <= i < escaped(s).len() implies escaped(s)[i] != '?' && escaped(s)[i] != '&'
            && escaped(s)[i] != '=' by {
            if i < head.len() {
                assert(escaped(s)[i] == head[i]);
            } else {
                assert(escaped(s)[i] == tail[i - head.len()]);
            }
        }
    }
}

proof fn lemma_escaped_char_has_no_separators(c: char)
    ensures
        forall|i: int|
            0 <= i < escaped_char(c).len() ==> escaped_char(c)[i] != '?' && escaped_char(c)[i]
                != '&' && escaped_char(c)[i] != '=',
{
    if is_unreserved(c) {
    } else {
        lemma_percent_encoded_shape(utf8_bytes_of(c));
    }
}

/// Every character of a `%XX` group is `%` or a hex digit.
proof fn lemma_percent_encoded_shape(bs: Seq<u8>)
    ensures
        forall|i: int|
            0 <= i < percent_encoded(bs).len() ==> (percent_encoded(bs)[i] == '%' || hex_table()
                .contains(percent_encoded(bs)[i])),
    decreases bs.len(),
{
    if bs.len() > 0 {
        lemma_percent_encoded_shape(bs.drop_first());
        assert(hex_table().contains(hex_char(bs[0] / 16))) by {
            assert(hex_table()[(bs[0] / 16) as int] == hex_char(bs[0] / 16));
        }
        assert(hex_table().contains(hex_char(bs[0] % 16))) by {
            assert(hex_table()[(bs[0] % 16) as int] == hex_char(bs[0] % 16));
        }
        let head = seq!['%', hex_char(bs[0] / 16), hex_char(bs[0] % 16)];
        let tail = percent_encoded(bs.drop_first());
        assert(percent_encoded(bs) == head + tail);
        assert forall|i: int|
            0 <= i < percent_encoded(bs).len() implies (percent_encoded(bs)[i] == '%'
            || hex_table().contains(percent_encoded(bs)[i])) by {
            if i < head.len() {
                assert(percent_encoded(bs)[i] == head[i]);
            } else {
                assert(percent_encoded(bs)[i] == tail[i - head.len()]);
            }
        }
    }
}

/// All characters of the string are ASCII.
pub open spec fn ascii_seq(s: Seq<char>) -> bool {
    forall|i: int| 0 <= i < s.len() ==> (s[i] as u32) < 0x80
}

/// All keys and values of the argument list are ASCII.
pub open spec fn ascii_args(args: Seq<(Seq<char>, Seq<char>)>) -> bool {
    forall|j: int| 0 <= j < args.len() ==> ascii_seq(#[trigger] args[j].0) && ascii_seq(args[j].1)
}

proof fn lemma_escaped_free_of(s: Seq<char>, sep: char)
    requires
        sep == '?' || sep == '&' || sep == '=',
    ensures
        !escaped(s).contains(sep),
{
    lemma_escaped_has_no_separators(s);
    if escaped(s).contains(sep) {
        let i = choose|i: int| 0 <= i < escaped(s).len() && escaped(s)[i] == sep;
        assert(escaped(s)[i] != sep);
    }
}

/// Splitting at a separator is unambiguous when neither left part holds it.
proof fn lemma_sep_split_unique(
    a1: Seq<char>,
    b1: Seq<char>,
    a2: Seq<char>,
    b2: Seq<char>,
    sep: char,
)
    requires
        !a1.contains(sep),
        !a2.contains(sep),
        a1 + seq![sep] + b1 == a2 + seq![sep] + b2,
    ensures
        a1 == a2,
        b1 == b2,
{
    let s1 = a1 + seq![sep] + b1;
    let s2 = a2 + seq![sep] + b2;
    let n1 = a1.len() as int;
    let n2 = a2.len() as int;
    if n1 < n2 {
        assert(s1[n1] == sep);
        assert(s2[n1] == a2[n1]);
        assert(a2.contains(sep)) by {
            assert(0 <= n1 < a2.len() && a2[n1] == sep);
        }
        assert(false);
    }
    if n2 < n1 {
        assert(s2[n2] == sep);
        assert(s1[n2] == a1[n2]);
        assert(a1.contains(sep)) by {
            assert(0 <= n2 < a1.len() && a1[n2] == sep);
        }
        assert(false);
    }
    assert(a1 =~= a2) by {
        assert(forall|i: int| 0 <= i < n1 ==> s1[i] == a1[i] && s2[i] == a2[i]);
    }
    assert(s1.len() == a1.len() + 1 + b1.len());
    assert(s2.len() == a2.len() + 1 + b2.len());
    assert(b1 =~= b2) by {
        assert(b1.len() == b2.len());
        assert(forall|i: int| 0 <= i < b1.len() ==> s1[n1 + 1 + i] == b1[i]);
        assert(forall|i: int| 0 <= i < b2.len() ==> s2[n1 + 1 + i] == b2[i]);
    }
}

proof fn lemma_encoded_pair_free_of(p: (Seq<char>, Seq<char>), sep: char)
    requires
        sep == '?' || sep == '&',
    ensures
        !encoded_pair(p).contains(sep),
{
    lemma_escaped_free_of(p.0, sep);
    lemma_escaped_free_of(p.1, sep);
    let k = escaped(p.0);
    let v = escaped(p.1);
    if encoded_pair(p).contains(sep) {
        let i = choose|i: int| 0 <= i < encoded_pair(p).len() && encoded_pair(p)[i] == sep;
        if i < k.len() {
            assert(k.contains(sep)) by {
                assert(0 <= i < k.len() && k[i] == sep);
            }
        } else if i == k.len() {
            assert(encoded_pair(p)[i] == '=');
        } else {
            assert(encoded_pair(p)[i] == v[i - k.len() - 1]);
            assert(v.contains(sep)) by {
                assert(0 <= i - k.len() - 1 < v.len() && v[i - k.len() - 1] == sep);
            }
        }
        assert(false);
    }
}

proof fn lemma_encoded_args_free_of_qmark(args: Seq<(Seq<char>, Seq<char>)>)
    ensures
        !encoded_args(args).contains('?'),
    decreases args.len(),
{
    if args.len() == 0 {
    } else if args.len() == 1 {
        lemma_encoded_pair_free_of(args[0], '?');
    } else {
        lemma_encoded_pair_free_of(args[0], '?');
        lemma_encoded_args_free_of_qmark(args.drop_first());
        let head = encoded_pair(args[0]);
        let tail = encoded_args(args.drop_first());
        let s = encoded_args(args);
        assert(s == head + seq!['&'] + tail);
        if s.contains('?') {
            let i = choose|i: int| 0 <= i < s.len() && s[i] == '?';
            if i < head.len() {
                assert(head.contains('?')) by {
                    assert(0 <= i < head.len() && head[i] == '?');
                }
            } else if i == head.len() {
                assert(s[i] == '&');
            } else {
                assert(s[i] == tail[i - head.len() - 1]);
                assert(tail.contains('?')) by {
                    assert(0 <= i - head.len() - 1 < tail.len() && tail[i - head.len() - 1]
                        == '?');
                }
            }
            assert(false);
        }
    }
}

/// Two ASCII pairs that encode alike are alike: one escaped `key=value`
/// group determines its key and its value.
pub proof fn lemma_encoded_pair_injective(p1: (Seq<char>, Seq<char>), p2: (Seq<char>, Seq<char>))
    requires
        ascii_seq(p1.0),
        ascii_seq(p1.1),
        ascii_seq(p2.0),
        ascii_seq(p2.1),
        encoded_pair(p1) == encoded_pair(p2),
    ensures
        p1.0 == p2.0,
        p1.1 == p2.1,
{
    lemma_escaped_free_of(p1.0, '=');
    lemma_escaped_free_of(p2.0, '=');
    lemma_sep_split_unique(escaped(p1.0), escaped(p1.1), escaped(p2.0), escaped(p2.1), '=');
    lemma_unescape_escaped(p1.0);
    lemma_unescape_escaped(p2.0);
    lemma_unescape_escaped(p1.1);
    lemma_unescape_escaped(p2.1);
}

/// The joined pair list determines the pairs, keys and values alike, in
/// order: re-parsing the part after `?` at the separators `&` and `=` and
/// unescaping the components can only give back the ASCII argument list
/// that was encoded.
pub proof fn lemma_encoded_args_injective(
    args1: Seq<(Seq<char>, Seq<char>)>,
    args2: Seq<(Seq<char>, Seq<char>)>,
)
    requires
        ascii_args(args1),
        ascii_args(args2),
        encoded_args(args1) == encoded_args(args2),
    ensures
        args1 == args2,
    decreases args1.len(),
{
    if args1.len() == 0 && args2.len() == 0 {
        assert(args1 =~= args2);
    } else if args1.len() == 0 || args2.len() == 0 {
        let ne = if args1.len() == 0 {
            args2
        } else {
            args1
        };
        assert(encoded_args(ne).len() > 0) by {
            if ne.len() == 1 {
                assert(encoded_args(ne) == encoded_pair(ne[0]));
            }
        }
        assert(false);
    } else if args1.len() == 1 && args2.len() == 1 {
        lemma_encoded_pair_injective(args1[0], args2[0]);
        assert(args1[0].0 == args2[0].0 && args1[0].1 == args2[0].1);
        assert(args1 =~= args2);
    } else if args1.len() >= 2 && args2.len() >= 2 {
        lemma_encoded_pair_free_of(args1[0], '&');
        lemma_encoded_pair_free_of(args2[0], '&');
        assert(encoded_args(args1) == encoded_pair(args1[0]) + seq!['&'] + encoded_args(
            args1.drop_first(),
        ));
        assert(encoded_args(args2) == encoded_pair(args2[0]) + seq!['&'] + encoded_args(
            args2.drop_first(),
        ));
        lemma_sep_split_unique(
            encoded_pair(args1[0]),
            encoded_args(args1.drop_first()),
            encoded_pair(args2[0]),
            encoded_args(args2.drop_first()),
            '&',
        );
        lemma_encoded_pair_injective(args1[0], args2[0]);
        assert(args1[0] == args2[0]);
        lemma_encoded_args_injective(args1.drop_first(), args2.drop_first());
        assert(args1.len() == args2.len());
        assert forall|j: int| 0 <= j < args1.len() implies args1[j] == args2[j] by {
            if j > 0 {
                assert(args1[j] == args1.drop_first()[j - 1]);
                assert(args2[j] == args2.drop_first()[j - 1]);
            }
        }
        assert(args1 =~= args2);
    } else {
        let single = if args1.len() == 1 {
            args1
        } else {
            args2
        };
        let several = if args1.len() == 1 {
            args2
        } else {
            args1
        };
        lemma_encoded_pair_free_of(single[0], '&');
        assert(encoded_args(single) == encoded_pair(single[0]));
        let head = encoded_pair(several[0]);
        let s = encoded_args(several);
        assert(s == head + seq!['&'] + encoded_args(several.drop_first()));
        assert(s[head.len() as int] == '&');
        assert(encoded_pair(single[0]).contains('&')) by {
            assert(0 <= head.len() < encoded_pair(single[0]).len() && encoded_pair(
                single[0],
            )[head.len() as int] == '&');
        }
        assert(false);
    }
}

/// The produced query string determines what went in: a command name free
/// of `?` and the ASCII argument pairs, in their order, can be read back
/// from it unambiguously. Re-parsing an encoded command therefore recovers
/// the original pairs.
pub proof fn lemma_encoded_query_injective(
    cmd1: Seq<char>,
    args1: Seq<(Seq<char>, Seq<char>)>,
    cmd2: Seq<char>,
    args2: Seq<(Seq<char>, Seq<char>)>,
)
    requires
        !cmd1.contains('?'),
        !cmd2.contains('?'),
        ascii_args(args1),
        ascii_args(args2),
        encoded_query(cmd1, args1) == encoded_query(cmd2, args2),
    ensures
        cmd1 == cmd2,
        args1 == args2,
{
    if args1.len() == 0 && args2.len() == 0 {
        assert(args1 =~= args2);
    } else if args1.len() > 0 && args2.len() > 0 {
        lemma_encoded_args_free_of_qmark(args1);
        lemma_encoded_args_free_of_qmark(args2);
        lemma_sep_split_unique(cmd1, encoded_args(args1), cmd2, encoded_args(args2), '?');
        lemma_encoded_args_injective(args1, args2);
    } else {
        let plain = if args1.len() == 0 {
            cmd1
        } else {
            cmd2
        };
        let qcmd = if args1.len() == 0 {
            cmd2
        } else {
            cmd1
        };
        let qargs = if args1.len() == 0 {
            args2
        } else {
            args1
        };
        assert(plain == qcmd + seq!['?'] + encoded_args(qargs));
        assert(plain[qcmd.len() as int] == '?');
        assert(plain.contains('?')) by {
            assert(0 <= qcmd.len() < plain.len() && plain[qcmd.len() as int] == '?');
        }
        assert(false);
    }
}

proof fn lemma_escaped_snoc(s: Seq<char>, i: int)
    requires
        0 <= i < s.len(),
    ensures
        escaped(s.take(i + 1)) == escaped(s.take(i)) + escaped_char(s[i]),
    decreases i,
{
    if i == 0 {
        assert(s.take(1) =~= seq![s[0]]);
        assert(s.take(1).drop_first() =~= Seq::<char>::empty());
        assert(escaped(Seq::<char>::empty()) == Seq::<char>::empty());
        assert(escaped(s.take(1)) == escaped_char(s[0]) + Seq::<char>::empty());
        assert(s.take(0) =~= Seq::<char>::empty());
        assert(escaped(s.take(1)) =~= escaped(s.take(0)) + escaped_char(s[0]));
    } else {
        let t = s.drop_first();
        assert(s.take(i + 1).drop_first() =~= t.take(i));
        assert(s.take(i).drop_first() =~= t.take(i - 1));
        lemma_escaped_snoc(t, i - 1);
        assert(escaped(s.take(i + 1)) == escaped_char(s[0]) + escaped(t.take(i)));
        assert(escaped(s.take(i)) == escaped_char(s[0]) + escaped(t.take(i - 1)));
        assert(escaped(s.take(i + 1)) =~= escaped(s.take(i)) + escaped_char(s[i]));
    }
}

proof fn lemma_encoded_args_snoc(args: Seq<(Seq<char>, Seq<char>)>, i: int)
    requires
        0 <= i < args.len(),
    ensures
        i == 0 ==> encoded_args(args.take(1)) == encoded_pair(args[0]),
        i > 0 ==> encoded_args(args.take(i + 1)) == encoded_args(args.take(i)) + seq!['&']
            + encoded_pair(args[i]),
    decreases i,
{
    if i == 0 {
        assert(args.take(1) =~= seq![args[0]]);
    } else {
        let t = args.drop_first();
        assert(args.take(i + 1).drop_first() =~= t.take(i));
        assert(args.take(i).drop_first() =~= t.take(i - 1));
        lemma_encoded_args_snoc(t, i - 1);
        assert(args.take(i + 1).len() > 1);
        assert(encoded_args(args.take(i + 1)) == encoded_pair(args[0]) + seq!['&'] + encoded_args(
            t.take(i),
        ));
        if i == 1 {
            assert(args.take(1) =~= seq![args[0]]);
            assert(encoded_args(t.take(1)) == encoded_pair(t[0]));
            assert(encoded_args(args.take(2)) =~= encoded_args(args.take(1)) + seq!['&']
                + encoded_pair(args[1]));
        } else {
            assert(args.take(i).len() > 1);
            assert(encoded_args(args.take(i)) == encoded_pair(args[0]) + seq!['&'] + encoded_args(
                t.take(i - 1),
            ));
            assert(encoded_args(args.take(i + 1)) =~= encoded_args(args.take(i)) + seq!['&']
                + encoded_pair(args[i]));
        }
    }
}

/// One hex digit as a one-character string slice.
fn hex_str(d: u8) -> (r: &'static str)
    requires
        d < 16,
    ensures
        r@ == seq![hex_char(d)],
{
    proof {
        reveal_strlit("0");
        reveal_strlit("1");
        reveal_strlit("2");
        reveal_strlit("3");
        reveal_strlit("4");
        reveal_strlit("5");
        reveal_strlit("6");
        reveal_strlit("7");
        reveal_strlit("8");
        reveal_strlit("9");
        reveal_strlit("A");
        reveal_strlit("B");
        reveal_strlit("C");
        reveal_strlit("D");
        reveal_strlit("E");
        reveal_strlit("F");
    }
    match d {
        0 => "0",
        1 => "1",
        2 => "2",
        3 => "3",
        4 => "4",
        5 => "5",
        6 => "6",
        7 => "7",
        8 => "8",
        9 => "9",
        10 => "A",
        11 => "B",
        12 => "C",
        13 => "D",
        14 => "E",
        15 => "F",
        _ => {
            proof {
                assert(false);
            }
            "0"
        },
    }
}

/// Appends the `%XX` group of one byte.
fn push_hex(out: &mut String, b: u8)
    ensures
        final (out)@ == old(out)@ + seq!['%', hex_char(b / 16), hex_char(b % 16)],
{
    proof {
        reveal_strlit("%");
    }
    out.append("%");
    out.append(hex_str(b / 16));
    out.append(hex_str(b % 16));
    proof {
        assert(final (out)@ =~= old(out)@ + seq!['%', hex_char(b / 16), hex_char(b % 16)]);
    }
}

/// Whether a character stands as itself in a query component.
fn is_unreserved_exec(c: char) -> (r: bool)
    ensures
        r == is_unreserved(c),
{
    let u = c as u32;
    (48 <= u && u <= 57) || (65 <= u && u <= 90) || (97 <= u && u <= 122) || u == 45 || u == 46
        || u == 95 || u == 126
}

/// Appends the escaped reading of `s`.
fn append_escaped(out: &mut String, s: &str)
    ensures
        final (out)@ == old(out)@ + escaped(s@),
{
    let n = s.unicode_len();
    let mut i: usize = 0;
    proof {
        assert(s@.take(0) =~= Seq::<char>::empty());
    }
    while i < n
        invariant
            i <= n,
            n == s@.len(),
            out@ == old(out)@ + escaped(s@.take(i as int)),
        decreases n - i,
    {
        let c = s.get_char(i);
        if is_unreserved_exec(c) {
            out.append(s.substring_char(i, i + 1));
            proof {
                assert(s@.subrange(i as int, i + 1) =~= seq![s@[i as int]]);
                assert(escaped_char(c) =~= seq![c]);
            }
        } else {
            let u = c as u32;
            if u < 0x80 {
                push_hex(out, u as u8);
                proof {
                    lemma_percent_encoded_small(utf8_bytes_of(c));
                }
            } else if u < 0x800 {
                push_hex(out, (0xC0 + u / 0x40) as u8);
                push_hex(out, (0x80 + u % 0x40) as u8);
                proof {
                    lemma_percent_encoded_small(utf8_bytes_of(c));
                }
            } else if u < 0x10000 {
                push_hex(out, (0xE0 + u / 0x1000) as u8);
                push_hex(out, (0x80 + (u / 0x40) % 0x40) as u8);
                push_hex(out, (0x80 + u % 0x40) as u8);
                proof {
                    lemma_percent_encoded_small(utf8_bytes_of(c));
                }
            } else {
                push_hex(out, (0xF0 + u / 0x40000) as u8);
                push_hex(out, (0x80 + (u / 0x1000) % 0x40) as u8);
                push_hex(out, (0x80 + (u / 0x40) % 0x40) as u8);
                push_hex(out, (0x80 + u % 0x40) as u8);
                proof {
                    lemma_percent_encoded_small(utf8_bytes_of(c));
                }
            }
            proof {
                assert(out@ =~= old(out)@ + escaped(s@.take(i as int)) + escaped_char(c));
            }
        }
        proof {
            lemma_escaped_snoc(s@, i as int);
            assert(out@ =~= old(out)@ + escaped(s@.take(i + 1)));
        }
        i += 1;
    }
    proof {
        assert(s@.take(n as int) =~= s@);
    }
}

/// Unfolds the `%XX` groups of up to four bytes.
proof fn lemma_percent_encoded_small(bs: Seq<u8>)
    requires
        bs.len() <= 4,
    ensures
        bs.len() == 0 ==> percent_encoded(bs) =~= Seq::<char>::empty(),
        bs.len() == 1 ==> percent_encoded(bs) =~= seq![
            '%',
            hex_char(bs[0] / 16),
            hex_char(bs[0] % 16),
        ],
        bs.len() == 2 ==> percent_encoded(bs) =~= seq![
            '%',
            hex_char(bs[0] / 16),
            hex_char(bs[0] % 16),
            '%',
            hex_char(bs[1] / 16),
            hex_char(bs[1] % 16),
        ],
        bs.len() == 3 ==> percent_encoded(bs) =~= seq![
            '%',
            hex_char(bs[0] / 16),
            hex_char(bs[0] % 16),
            '%',
            hex_char(bs[1] / 16),
            hex_char(bs[1] % 16),
            '%',
            hex_char(bs[2] / 16),
            hex_char(bs[2] % 16),
        ],
        bs.len() == 4 ==> percent_encoded(bs) =~= seq![
            '%',
            hex_char(bs[0] / 16),
            hex_char(bs[0] % 16),
            '%',
            hex_char(bs[1] / 16),
            hex_char(bs[1] % 16),
            '%',
            hex_char(bs[2] / 16),
            hex_char(bs[2] % 16),
            '%',
            hex_char(bs[3] / 16),
            hex_char(bs[3] % 16),
        ],
    decreases bs.len(),
{
    if bs.len() > 0 {
        lemma_percent_encoded_small(bs.drop_first());
    } else {
        assert(percent_encoded(bs) =~= Seq::<char>::empty());
    }
}

/// A command name together with its ordered argument pairs, ready to be
/// encoded into a query string.
#[derive(Debug)]
pub struct CommandQuery {
    pub command: String,
    pub arguments: Vec<(String, String)>,
}

impl CommandQuery {
    /// A query for `command`, with no arguments yet.
    pub fn new(command: String) -> (r: CommandQuery)
        ensures
            r.command == command,
            r.arguments@.len() == 0,
    {
        CommandQuery { command, arguments: Vec::new() }
    }

    /// Replaces the argument pairs. Their order is kept in the encoded
    /// output.
    pub fn set_argument(&mut self, arguments: Vec<(String, String)>)
        ensures
            final (self).command == old(self).command,
            final (self).arguments == arguments,
    {
        self.arguments = arguments;
    }

    /// The canonical query string: the command name, then `?` and the
    /// escaped `key=value` pairs joined with `&`; the name alone when there
    /// are no arguments.
    pub fn encode(&self) -> (r: String)
        ensures
            r@ == encoded_query(self.command@, args_view(self.arguments@)),
    {
        let ghost gargs = args_view(self.arguments@);
        let mut out = String::new();
        out.append(self.command.as_str());
        if self.arguments.len() > 0 {
            proof {
                reveal_strlit("?");
                reveal_strlit("&");
                reveal_strlit("=");
            }
            out.append("?");
            let mut i: usize = 0;
            while i < self.arguments.len()
                invariant
                    i <= self.arguments.len(),
                    gargs == args_view(self.arguments@),
                    gargs.len() == self.arguments@.len(),
                    "&"@ =~= seq!['&'],
                    "="@ =~= seq!['='],
                    i == 0 ==> out@ == self.command@ + seq!['?'],
                    i > 0 ==> out@ == self.command@ + seq!['?'] + encoded_args(
                        gargs.take(i as int),
                    ),
                decreases self.arguments.len() - i,
            {
                if i > 0 {
                    out.append("&");
                }
                append_escaped(&mut out, self.arguments[i].0.as_str());
                out.append("=");
                append_escaped(&mut out, self.arguments[i].1.as_str());
                proof {
                    assert(gargs[i as int] == (self.arguments@[i as int].0@,
                    self.arguments@[i as int].1@));
                    lemma_encoded_args_snoc(gargs, i as int);
                    if i == 0 {
                        assert(out@ =~= self.command@ + seq!['?'] + encoded_args(gargs.take(1)));
                    } else {
                        assert(out@ =~= self.command@ + seq!['?'] + encoded_args(
                            gargs.take(i + 1),
                        ));
                    }
                }
                i += 1;
            }
            proof {
                assert(gargs.take(gargs.len() as int) =~= gargs);
            }
        } else {
            proof {
                assert(out@ =~= self.command@);
            }
        }
        out
    }
}

} // verus!
