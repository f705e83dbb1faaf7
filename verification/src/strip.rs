//! The round-trip law of the two JSON projections: removing the
//! whitespace that pretty-printing inserted gives back the compact
//! text, character for character.  Whitespace inside string literals
//! is kept: the stripper scans the text like a JSON reader, tracking
//! whether it stands inside a string and behind an escape.

use vstd::prelude::*;

use crate::projector::spec_dec;
use crate::projector::spec_escape;
use crate::projector::spec_escape_char;
use crate::projector::spec_hex_digit;
use crate::projector::spec_indent;
use crate::projector::Json;
use crate::projector::spec_render;
use crate::projector::spec_render_list;
use crate::projector::spec_render_pair;
use crate::projector::spec_render_pairs;
use crate::projector::spec_render_pretty;
use crate::projector::spec_render_pretty_list;
use crate::projector::spec_render_pretty_pair;
use crate::projector::spec_render_pretty_pairs;

verus! {

/// Where a scan of a JSON text stands: inside a string literal or not,
/// and directly behind an unconsumed backslash or not.
pub struct ScanState {
    pub in_str: bool,
    pub esc: bool,
}

/// The scan state outside any string literal.
pub open spec fn scan_outside() -> ScanState {
    ScanState { in_str: false, esc: false }
}

/// The scan state inside a string literal.
pub open spec fn scan_inside() -> ScanState {
    ScanState { in_str: true, esc: false }
}

/// One character advances the scan.
pub open spec fn scan_step(st: ScanState, c: char) -> ScanState {
    if st.esc {
        ScanState { in_str: st.in_str, esc: false }
    } else if st.in_str {
        if c == '\\' {
            ScanState { in_str: true, esc: true }
        } else if c == '"' {
            ScanState { in_str: false, esc: false }
        } else {
            st
        }
    } else {
        if c == '"' {
            ScanState { in_str: true, esc: false }
        } else {
            st
        }
    }
}

/// Whether the character survives stripping: everything inside string
/// literals does, and outside them everything but spaces and newlines.
pub open spec fn scan_keeps(st: ScanState, c: char) -> bool {
    st.in_str || st.esc || !(c == ' ' || c == '\n')
}

/// The text with its insignificant whitespace removed.
pub open spec fn spec_strip_ws(s: Seq<char>, st: ScanState) -> Seq<char>
    decreases s.len(),
{
    if s.len() == 0 {
        Seq::empty()
    } else {
        let rest = spec_strip_ws(s.drop_first(), scan_step(st, s[0]));
        if scan_keeps(st, s[0]) {
            seq![s[0]] + rest
        } else {
            rest
        }
    }
}

/// Where the scan stands after the whole text.
pub open spec fn spec_scan_after(s: Seq<char>, st: ScanState) -> ScanState
    decreases s.len(),
{
    if s.len() == 0 {
        st
    } else {
        spec_scan_after(s.drop_first(), scan_step(st, s[0]))
    }
}

/// Stripping distributes over concatenation, threading the scan state.
pub proof fn lemma_strip_concat(a: Seq<char>, b: Seq<char>, st: ScanState)
    ensures
        spec_strip_ws(a + b, st) == spec_strip_ws(a, st) + spec_strip_ws(b, spec_scan_after(a, st)),
        spec_scan_after(a + b, st) == spec_scan_after(b, spec_scan_after(a, st)),
    decreases a.len(),
{
    if a.len() == 0 {
        assert(a + b =~= b);
        assert(spec_strip_ws(a, st) =~= Seq::<char>::empty());
        assert(spec_strip_ws(a + b, st) =~= spec_strip_ws(a, st) + spec_strip_ws(
            b,
            spec_scan_after(a, st),
        ));
    } else {
        assert((a + b)[0] == a[0]);
        assert((a + b).drop_first() =~= a.drop_first() + b);
        lemma_strip_concat(a.drop_first(), b, scan_step(st, a[0]));
        if scan_keeps(st, a[0]) {
            assert(spec_strip_ws(a + b, st) =~= spec_strip_ws(a, st) + spec_strip_ws(
                b,
                spec_scan_after(a, st),
            ));
        }
    }
}

/// Stripping one character.
pub proof fn lemma_strip_one(c: char, st: ScanState)
    ensures
        spec_strip_ws(seq![c], st) == if scan_keeps(st, c) {
            seq![c]
        } else {
            Seq::<char>::empty()
        },
        spec_scan_after(seq![c], st) == scan_step(st, c),
{
    reveal_with_fuel(spec_strip_ws, 3);
    reveal_with_fuel(spec_scan_after, 3);
    let s = seq![c];
    assert(s.drop_first() =~= Seq::<char>::empty());
    assert(spec_strip_ws(s.drop_first(), scan_step(st, c)) =~= Seq::<char>::empty());
    assert(spec_scan_after(s.drop_first(), scan_step(st, c)) == scan_step(st, c));
    if scan_keeps(st, c) {
        assert(spec_strip_ws(s, st) =~= seq![c]);
    } else {
        assert(spec_strip_ws(s, st) =~= Seq::<char>::empty());
    }
}

/// A character the scanner both keeps and passes through unchanged,
/// outside a string: not whitespace, not a quote.
pub open spec fn is_verbatim_outside(c: char) -> bool {
    c != ' ' && c != '\n' && c != '"'
}

/// A text of verbatim characters survives stripping unchanged and
/// leaves the scan outside.
pub proof fn lemma_strip_verbatim(s: Seq<char>)
    requires
        forall|i: int| 0 <= i < s.len() ==> is_verbatim_outside(#[trigger] s[i]),
    ensures
        spec_strip_ws(s, scan_outside()) == s,
        spec_scan_after(s, scan_outside()) == scan_outside(),
    decreases s.len(),
{
    if s.len() > 0 {
        assert(is_verbatim_outside(s[0]));
        assert(scan_step(scan_outside(), s[0]) == scan_outside());
        assert(forall|i: int|
            0 <= i < s.drop_first().len() ==> is_verbatim_outside(#[trigger] s.drop_first()[i]));
        lemma_strip_verbatim(s.drop_first());
        assert(spec_strip_ws(s, scan_outside()) =~= s);
    }
}

/// Whitespace outside a string literal is dropped without a trace.
pub proof fn lemma_strip_ws_only(s: Seq<char>)
    requires
        forall|i: int| 0 <= i < s.len() ==> (#[trigger] s[i] == ' ' || s[i] == '\n'),
    ensures
        spec_strip_ws(s, scan_outside()) == Seq::<char>::empty(),
        spec_scan_after(s, scan_outside()) == scan_outside(),
    decreases s.len(),
{
    if s.len() > 0 {
        assert(scan_step(scan_outside(), s[0]) == scan_outside());
        assert(forall|i: int|
            0 <= i < s.drop_first().len() ==> (#[trigger] s.drop_first()[i] == ' '
                || s.drop_first()[i] == '\n'));
        lemma_strip_ws_only(s.drop_first());
    }
}

/// Indentation strips to nothing.
pub proof fn lemma_strip_indent(d: int)
    ensures
        spec_strip_ws(spec_indent(d), scan_outside()) == Seq::<char>::empty(),
        spec_scan_after(spec_indent(d), scan_outside()) == scan_outside(),
    decreases d,
{
    lemma_indent_is_spaces(d);
    lemma_strip_ws_only(spec_indent(d));
}

/// Indentation is spaces alone.
proof fn lemma_indent_is_spaces(d: int)
    ensures
        forall|i: int| 0 <= i < spec_indent(d).len() ==> #[trigger] spec_indent(d)[i] == ' ',
    decreases d,
{
    if d > 0 {
        lemma_indent_is_spaces(d - 1);
        assert forall|i: int|
            0 <= i < spec_indent(d).len() implies #[trigger] spec_indent(d)[i] == ' ' by {
            if i < spec_indent(d - 1).len() {
                assert(spec_indent(d)[i] == spec_indent(d - 1)[i]);
            } else {
                assert(spec_indent(d)[i] == seq![' ', ' '][i - spec_indent(d - 1).len()]);
            }
        }
    }
}

/// Decimal digits are verbatim.
pub proof fn lemma_dec_verbatim(n: nat)
    ensures
        forall|i: int| 0 <= i < spec_dec(n).len() ==> is_verbatim_outside(#[trigger] spec_dec(n)[i]),
    decreases n,
{
    if n < 10 {
        assert(spec_dec(n) =~= seq![(48 + n) as char]);
        assert(is_verbatim_outside((48 + n) as char));
    } else {
        lemma_dec_verbatim(n / 10);
        assert forall|i: int|
            0 <= i < spec_dec(n).len() implies is_verbatim_outside(#[trigger] spec_dec(n)[i]) by {
            if i < spec_dec(n / 10).len() {
                assert(spec_dec(n)[i] == spec_dec(n / 10)[i]);
            } else {
                assert(spec_dec(n)[i] == (48 + n % 10) as char);
                assert(is_verbatim_outside((48 + n % 10) as char));
            }
        }
    }
}

/// One escaped character, scanned from inside a string: every one of
/// its characters is kept and the scan stays inside.
pub proof fn lemma_strip_escape_char(c: char)
    ensures
        spec_strip_ws(spec_escape_char(c), scan_inside()) == spec_escape_char(c),
        spec_scan_after(spec_escape_char(c), scan_inside()) == scan_inside(),
{
    let e = spec_escape_char(c);
    if c == '"' || c == '\\' {
        assert(e.len() == 2 && e[0] == '\\');
        lemma_strip_two_in_string(e);
    } else if c == '\n' || c == '\r' || c == '\t' {
        assert(e.len() == 2 && e[0] == '\\');
        lemma_strip_two_in_string(e);
    } else if (c as int) < 0x20 {
        assert(e.len() == 6 && e[0] == '\\' && e[1] == 'u' && e[2] == '0' && e[3] == '0');
        assert(e[4] == spec_hex_digit(c as int / 16) && e[5] == spec_hex_digit(c as int % 16));
        assert(e[4] != '"' && e[4] != '\\');
        assert(e[5] != '"' && e[5] != '\\');
        lemma_strip_escaped_hex(e);
    } else {
        assert(e =~= seq![c]);
        assert(scan_step(scan_inside(), c) == scan_inside());
        assert(scan_keeps(scan_inside(), c));
        lemma_strip_one(c, scan_inside());
    }
}

/// A backslash followed by one character, inside a string.
proof fn lemma_strip_two_in_string(e: Seq<char>)
    requires
        e.len() == 2,
        e[0] == '\\',
    ensures
        spec_strip_ws(e, scan_inside()) == e,
        spec_scan_after(e, scan_inside()) == scan_inside(),
{
    reveal_with_fuel(spec_strip_ws, 4);
    reveal_with_fuel(spec_scan_after, 4);
    let st1 = scan_step(scan_inside(), e[0]);
    assert(st1.esc && st1.in_str);
    let t1 = e.drop_first();
    assert(t1 =~= seq![e[1]]);
    assert(t1.drop_first() =~= Seq::<char>::empty());
    assert(scan_step(st1, e[1]) == scan_inside());
    assert(spec_strip_ws(t1.drop_first(), scan_inside()) =~= Seq::<char>::empty());
    assert(spec_scan_after(t1.drop_first(), scan_inside()) == scan_inside());
    assert(scan_keeps(st1, e[1]));
    assert(spec_strip_ws(t1, st1) =~= seq![e[1]]);
    assert(spec_scan_after(t1, st1) == scan_inside());
    assert(scan_keeps(scan_inside(), e[0]));
    assert(spec_strip_ws(e, scan_inside()) =~= seq![e[0]] + spec_strip_ws(t1, st1));
    assert(spec_strip_ws(e, scan_inside()) =~= e);
    assert(spec_scan_after(e, scan_inside()) == spec_scan_after(t1, st1));
}

/// A six-character `\u00XX` escape, inside a string.
proof fn lemma_strip_escaped_hex(e: Seq<char>)
    requires
        e.len() == 6,
        e[0] == '\\',
        e[1] == 'u',
        e[2] == '0',
        e[3] == '0',
        e[4] != '"' && e[4] != '\\',
        e[5] != '"' && e[5] != '\\',
    ensures
        spec_strip_ws(e, scan_inside()) == e,
        spec_scan_after(e, scan_inside()) == scan_inside(),
{
    reveal_with_fuel(spec_strip_ws, 4);
    reveal_with_fuel(spec_scan_after, 4);
    let s0 = scan_inside();
    let s1 = scan_step(s0, e[0]);
    let s2 = scan_step(s1, e[1]);
    assert(s1.esc && s1.in_str);
    assert(s2 == scan_inside());
    let head = seq![e[0], e[1]];
    let tail2 = e.drop_first().drop_first();
    assert(tail2 =~= seq![e[2], e[3], e[4], e[5]]);
    assert(forall|i: int| 0 <= i < tail2.len() ==> #[trigger] tail2[i] != '"' && tail2[i] != '\\');
    lemma_strip_plain_in_string(tail2);
    assert(head + tail2 =~= e);
    let t1 = head.drop_first();
    assert(t1 =~= seq![e[1]]);
    assert(t1.drop_first() =~= Seq::<char>::empty());
    assert(spec_strip_ws(t1.drop_first(), s2) =~= Seq::<char>::empty());
    assert(spec_scan_after(t1.drop_first(), s2) == s2);
    assert(scan_keeps(s1, e[1]));
    assert(spec_strip_ws(t1, s1) =~= seq![e[1]]);
    assert(spec_scan_after(t1, s1) == s2);
    assert(scan_keeps(s0, e[0]));
    assert(spec_strip_ws(head, s0) =~= seq![e[0]] + spec_strip_ws(t1, s1));
    assert(spec_strip_ws(head, s0) =~= head);
    assert(spec_scan_after(head, s0) == s2);
    lemma_strip_concat(head, tail2, s0);
    assert(spec_strip_ws(e, scan_inside()) =~= e);
}

/// Characters inside a string that are neither quotes nor backslashes
/// pass through and keep the scan inside.
proof fn lemma_strip_plain_in_string(s: Seq<char>)
    requires
        forall|i: int| 0 <= i < s.len() ==> #[trigger] s[i] != '"' && s[i] != '\\',
    ensures
        spec_strip_ws(s, scan_inside()) == s,
        spec_scan_after(s, scan_inside()) == scan_inside(),
    decreases s.len(),
{
    if s.len() > 0 {
        assert(scan_step(scan_inside(), s[0]) == scan_inside());
        assert(forall|i: int|
            0 <= i < s.drop_first().len() ==> #[trigger] s.drop_first()[i] != '"'
                && s.drop_first()[i] != '\\');
        lemma_strip_plain_in_string(s.drop_first());
        assert(spec_strip_ws(s, scan_inside()) =~= s);
    }
}

/// A whole escaped string body, scanned from inside: kept verbatim,
/// scan still inside.
pub proof fn lemma_strip_escaped(s: Seq<char>)
    ensures
        spec_strip_ws(spec_escape(s), scan_inside()) == spec_escape(s),
        spec_scan_after(spec_escape(s), scan_inside()) == scan_inside(),
    decreases s.len(),
{
    if s.len() == 0 {
        assert(s.map_values(|c: char| spec_escape_char(c)) =~= Seq::<Seq<char>>::empty());
        assert(spec_escape(s) =~= Seq::<char>::empty());
    } else {
        let body = s.drop_last();
        assert(body.push(s.last()) =~= s);
        crate::projector::lemma_escape_push(body, s.last());
        lemma_strip_escaped(body);
        lemma_strip_escape_char(s.last());
        lemma_strip_concat(spec_escape(body), spec_escape_char(s.last()), scan_inside());
        assert(spec_escape(s) == spec_escape(body) + spec_escape_char(s.last()));
    }
}

/// A whole JSON string literal, scanned from outside: kept verbatim,
/// scan ends outside.
pub proof fn lemma_strip_string_literal(s: Seq<char>)
    ensures
        spec_strip_ws(seq!['"'] + spec_escape(s) + seq!['"'], scan_outside()) == seq!['"']
            + spec_escape(s) + seq!['"'],
        spec_scan_after(seq!['"'] + spec_escape(s) + seq!['"'], scan_outside()) == scan_outside(),
{
    let q: Seq<char> = seq!['"'];
    lemma_strip_escaped(s);
    assert(scan_step(scan_outside(), '"') == scan_inside());
    assert(scan_step(scan_inside(), '"') == scan_outside());
    assert(scan_keeps(scan_outside(), '"'));
    assert(scan_keeps(scan_inside(), '"'));
    lemma_strip_one('"', scan_outside());
    lemma_strip_one('"', scan_inside());
    lemma_strip_concat(q + spec_escape(s), q, scan_outside());
    lemma_strip_concat(q, spec_escape(s), scan_outside());
    assert((q + spec_escape(s)) + q =~= q + spec_escape(s) + q);
}

/// Stripping the pretty rendering of any JSON value gives exactly its
/// compact rendering: pretty-printing changes only whitespace.
pub proof fn lemma_strip_pretty(j: Json, d: int)
    ensures
        spec_strip_ws(spec_render_pretty(j, d), scan_outside()) == spec_render(j),
        spec_scan_after(spec_render_pretty(j, d), scan_outside()) == scan_outside(),
    decreases j, 1int, 0int,
{
    match j {
        Json::Str(s) => {
            lemma_strip_string_literal(s);
        },
        Json::UInt(n) => {
            lemma_dec_verbatim(n);
            lemma_strip_verbatim(spec_dec(n));
        },
        Json::Arr(items) => {
            if items.len() == 0 {
                let two = seq!['[', ']'];
                assert(forall|i: int|
                    0 <= i < two.len() ==> is_verbatim_outside(#[trigger] two[i]));
                lemma_strip_verbatim(two);
                assert(spec_render(j) =~= two);
            } else {
                let head = seq!['[', '\n'];
                let mid = spec_render_pretty_list(items, d + 1);
                let tail = seq!['\n'] + spec_indent(d) + seq![']'];
                assert(spec_render_pretty(j, d) =~= (head + mid) + tail);
                lemma_strip_two_outside('[', '\n', seq!['[']);
                lemma_strip_pretty_list(items, d + 1);
                lemma_strip_tail_close(d, ']');
                lemma_strip_concat(head, mid, scan_outside());
                lemma_strip_concat(head + mid, tail, scan_outside());
                assert(spec_strip_ws(spec_render_pretty(j, d), scan_outside()) =~= seq!['[']
                    + spec_render_list(items) + seq![']']);
            }
        },
        Json::Obj(pairs) => {
            if pairs.len() == 0 {
                let two = seq!['{', '}'];
                assert(forall|i: int|
                    0 <= i < two.len() ==> is_verbatim_outside(#[trigger] two[i]));
                lemma_strip_verbatim(two);
                assert(spec_render(j) =~= two);
            } else {
                let head = seq!['{', '\n'];
                let mid = spec_render_pretty_pairs(pairs, d + 1);
                let tail = seq!['\n'] + spec_indent(d) + seq!['}'];
                assert(spec_render_pretty(j, d) =~= (head + mid) + tail);
                lemma_strip_two_outside('{', '\n', seq!['{']);
                lemma_strip_pretty_pairs(pairs, d + 1);
                lemma_strip_tail_close(d, '}');
                lemma_strip_concat(head, mid, scan_outside());
                lemma_strip_concat(head + mid, tail, scan_outside());
                assert(spec_strip_ws(spec_render_pretty(j, d), scan_outside()) =~= seq!['{']
                    + spec_render_pairs(pairs) + seq!['}']);
            }
        },
    }
}

/// A bracket followed by a newline strips to the bracket alone.
proof fn lemma_strip_two_outside(a: char, b: char, kept: Seq<char>)
    requires
        is_verbatim_outside(a),
        a != '\\',
        b == '\n',
        kept =~= seq![a],
    ensures
        spec_strip_ws(seq![a, b], scan_outside()) == kept,
        spec_scan_after(seq![a, b], scan_outside()) == scan_outside(),
{
    let two = seq![a, b];
    assert(two =~= seq![a] + seq![b]);
    lemma_strip_one(a, scan_outside());
    assert(scan_step(scan_outside(), a) == scan_outside());
    lemma_strip_one(b, scan_outside());
    lemma_strip_concat(seq![a], seq![b], scan_outside());
    assert(spec_strip_ws(two, scan_outside()) =~= kept);
}

/// A newline, indentation and a closing bracket strip to the bracket.
proof fn lemma_strip_tail_close(d: int, close: char)
    requires
        is_verbatim_outside(close),
        close != '\\',
    ensures
        spec_strip_ws(seq!['\n'] + spec_indent(d) + seq![close], scan_outside()) == seq![close],
        spec_scan_after(seq!['\n'] + spec_indent(d) + seq![close], scan_outside())
            == scan_outside(),
{
    let nl = seq!['\n'];
    let cl = seq![close];
    lemma_strip_one('\n', scan_outside());
    assert(scan_step(scan_outside(), '\n') == scan_outside());
    lemma_strip_indent(d);
    lemma_strip_one(close, scan_outside());
    lemma_strip_concat(nl, spec_indent(d), scan_outside());
    lemma_strip_concat(nl + spec_indent(d), cl, scan_outside());
    assert(spec_strip_ws(nl + spec_indent(d) + cl, scan_outside()) =~= cl);
}

/// Stripping a pretty array body gives the compact comma-joined body.
proof fn lemma_strip_pretty_list(items: Seq<Json>, d: int)
    ensures
        spec_strip_ws(spec_render_pretty_list(items, d), scan_outside()) == spec_render_list(
            items,
        ),
        spec_scan_after(spec_render_pretty_list(items, d), scan_outside()) == scan_outside(),
    decreases items, 0int, items.len(),
{
    if items.len() == 0 {
        assert(spec_render_pretty_list(items, d) =~= Seq::<char>::empty());
    } else if items.len() == 1 {
        lemma_strip_indent(d);
        lemma_strip_pretty(items[0], d);
        lemma_strip_concat(spec_indent(d), spec_render_pretty(items[0], d), scan_outside());
    } else {
        let front = spec_render_pretty_list(items.drop_last(), d);
        let sep = seq![',', '\n'];
        let entry = spec_indent(d) + spec_render_pretty(items.last(), d);
        assert(spec_render_pretty_list(items, d) =~= ((front + sep) + entry));
        lemma_strip_pretty_list(items.drop_last(), d);
        lemma_strip_two_outside(',', '\n', seq![',']);
        lemma_strip_indent(d);
        lemma_strip_pretty(items.last(), d);
        lemma_strip_concat(spec_indent(d), spec_render_pretty(items.last(), d), scan_outside());
        lemma_strip_concat(front, sep, scan_outside());
        lemma_strip_concat(front + sep, entry, scan_outside());
        assert(spec_strip_ws(spec_render_pretty_list(items, d), scan_outside())
            =~= spec_render_list(items.drop_last()) + seq![','] + spec_render(items.last()));
    }
}

/// Stripping a pretty object body gives the compact comma-joined body.
proof fn lemma_strip_pretty_pairs(pairs: Seq<(Seq<char>, Json)>, d: int)
    ensures
        spec_strip_ws(spec_render_pretty_pairs(pairs, d), scan_outside()) == spec_render_pairs(
            pairs,
        ),
        spec_scan_after(spec_render_pretty_pairs(pairs, d), scan_outside()) == scan_outside(),
    decreases pairs, 0int, pairs.len(),
{
    if pairs.len() == 0 {
        assert(spec_render_pretty_pairs(pairs, d) =~= Seq::<char>::empty());
    } else if pairs.len() == 1 {
        lemma_strip_pretty_pair(pairs[0], d);
    } else {
        let front = spec_render_pretty_pairs(pairs.drop_last(), d);
        let sep = seq![',', '\n'];
        let entry = spec_render_pretty_pair(pairs.last(), d);
        assert(spec_render_pretty_pairs(pairs, d) =~= ((front + sep) + entry));
        lemma_strip_pretty_pairs(pairs.drop_last(), d);
        lemma_strip_two_outside(',', '\n', seq![',']);
        lemma_strip_pretty_pair(pairs.last(), d);
        lemma_strip_concat(front, sep, scan_outside());
        lemma_strip_concat(front + sep, entry, scan_outside());
        assert(spec_strip_ws(spec_render_pretty_pairs(pairs, d), scan_outside())
            =~= spec_render_pairs(pairs.drop_last()) + seq![','] + spec_render_pair(pairs.last()));
    }
}

/// Stripping one pretty field gives the compact field.
proof fn lemma_strip_pretty_pair(pair: (Seq<char>, Json), d: int)
    ensures
        spec_strip_ws(spec_render_pretty_pair(pair, d), scan_outside()) == spec_render_pair(pair),
        spec_scan_after(spec_render_pretty_pair(pair, d), scan_outside()) == scan_outside(),
    decreases pair, 1int, 0int,
{
    let lit = seq!['"'] + spec_escape(pair.0) + seq!['"'];
    let colon = seq![':'];
    let space = seq![' '];
    let value = spec_render_pretty(pair.1, d);
    assert(spec_render_pretty_pair(pair, d) =~= ((((spec_indent(d) + lit) + colon) + space)
        + value));
    lemma_strip_indent(d);
    lemma_strip_string_literal(pair.0);
    lemma_strip_one(':', scan_outside());
    assert(scan_step(scan_outside(), ':') == scan_outside());
    lemma_strip_one(' ', scan_outside());
    lemma_strip_pretty(pair.1, d);
    lemma_strip_concat(spec_indent(d), lit, scan_outside());
    lemma_strip_concat(spec_indent(d) + lit, colon, scan_outside());
    lemma_strip_concat((spec_indent(d) + lit) + colon, space, scan_outside());
    lemma_strip_concat(((spec_indent(d) + lit) + colon) + space, value, scan_outside());
    assert(spec_strip_ws(spec_render_pretty_pair(pair, d), scan_outside()) =~= lit + colon
        + spec_render(pair.1));
    assert(spec_render_pair(pair) =~= lit + colon + spec_render(pair.1));
}

/// The round-trip structure law of a whole tree: its pretty JSON,
/// stripped of the whitespace outside string literals, is exactly its
/// compact JSON — both texts describe the same node set, parent/child
/// relationships, and value sets.
pub proof fn lemma_json_forms_agree(t: &crate::registry_tree::RegistriesTree)
    ensures
        spec_strip_ws(crate::projector::spec_to_pretty_json(t), scan_outside())
            == crate::projector::spec_to_json(t),
{
    lemma_strip_pretty(
        crate::projector::spec_json_of_node(t.store(), t.root_id()),
        0,
    );
}

/// The same law for an owned subtree.
pub proof fn lemma_subtree_json_forms_agree(t: crate::tree::TreeNode)
    ensures
        spec_strip_ws(
            spec_render_pretty(crate::tree::spec_json_of_treenode(t), 0),
            scan_outside(),
        ) == spec_render(crate::tree::spec_json_of_treenode(t)),
{
    lemma_strip_pretty(crate::tree::spec_json_of_treenode(t), 0);
}

} // verus!
