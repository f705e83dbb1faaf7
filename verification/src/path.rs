//! A path under construction: a stack of segments that mirrors the
//! builder's descent into the store, joined by the store's separator.

use vstd::prelude::*;

use crate::text::chars_to_string;
use crate::text::str_to_chars;

verus! {

/// The character that separates path segments in the store's paths.
pub open spec fn sep_char() -> char {
    '\\'
}

/// A sequence of segments joined by the separator character.
pub open spec fn spec_join(segs: Seq<Seq<char>>) -> Seq<char>
    decreases segs.len(),
{
    if segs.len() == 0 {
        Seq::empty()
    } else if segs.len() == 1 {
        segs[0]
    } else {
        spec_join(segs.drop_last()) + seq![sep_char()] + segs.last()
    }
}

/// A sequence of characters split at every separator; the result always
/// holds at least one segment, and none of its segments holds a separator.
pub open spec fn spec_split(s: Seq<char>) -> Seq<Seq<char>>
    decreases s.len(),
{
    if s.len() == 0 {
        seq![Seq::<char>::empty()]
    } else if s[0] == sep_char() {
        seq![Seq::<char>::empty()] + spec_split(s.drop_first())
    } else {
        let rest = spec_split(s.drop_first());
        seq![seq![s[0]] + rest[0]] + rest.drop_first()
    }
}

pub proof fn lemma_split_len(s: Seq<char>)
    ensures
        spec_split(s).len() >= 1,
    decreases s.len(),
{
    if s.len() != 0 {
        lemma_split_len(s.drop_first());
    }
}

/// `spec_join` taken apart at the front rather than at the back.
pub proof fn lemma_join_head(segs: Seq<Seq<char>>)
    requires
        segs.len() >= 2,
    ensures
        spec_join(segs) == segs[0] + seq![sep_char()] + spec_join(segs.drop_first()),
    decreases segs.len(),
{
    if segs.len() == 2 {
        assert(segs.drop_last() =~= seq![segs[0]]);
        assert(segs.drop_first() =~= seq![segs[1]]);
        assert(spec_join(segs) =~= segs[0] + seq![sep_char()] + spec_join(segs.drop_first()));
    } else {
        lemma_join_head(segs.drop_last());
        assert(segs.drop_last()[0] == segs[0]);
        assert(segs.drop_last().drop_first() =~= segs.drop_first().drop_last());
        assert(segs.drop_first().last() == segs.last());
        assert(spec_join(segs) == spec_join(segs.drop_last()) + seq![sep_char()] + segs.last());
        assert(spec_join(segs.drop_first()) == spec_join(segs.drop_first().drop_last()) + seq![
            sep_char(),
        ] + segs.drop_first().last());
        assert(spec_join(segs) =~= segs[0] + seq![sep_char()] + spec_join(segs.drop_first()));
    }
}

/// Joining undoes splitting, for every input.
pub proof fn lemma_join_split(s: Seq<char>)
    ensures
        spec_join(spec_split(s)) == s,
    decreases s.len(),
{
    lemma_split_len(s);
    if s.len() == 0 {
        assert(spec_join(spec_split(s)) =~= s);
    } else if s[0] == sep_char() {
        let rest = spec_split(s.drop_first());
        lemma_join_split(s.drop_first());
        lemma_split_len(s.drop_first());
        let whole = seq![Seq::<char>::empty()] + rest;
        assert(whole.len() >= 2);
        lemma_join_head(whole);
        assert(whole[0] == Seq::<char>::empty());
        assert(whole.drop_first() =~= rest);
        assert(spec_join(spec_split(s)) =~= s);
    } else {
        let rest = spec_split(s.drop_first());
        lemma_join_split(s.drop_first());
        lemma_split_len(s.drop_first());
        if rest.len() == 1 {
            assert(spec_split(s) =~= seq![seq![s[0]] + rest[0]]);
            assert(spec_join(rest) == rest[0]);
            assert(rest[0] == s.drop_first());
            assert(spec_join(spec_split(s)) == seq![s[0]] + rest[0]);
            assert(seq![s[0]] + s.drop_first() =~= s);
        } else {
            let whole = seq![seq![s[0]] + rest[0]] + rest.drop_first();
            assert(whole.len() >= 2);
            lemma_join_head(whole);
            assert(whole[0] == seq![s[0]] + rest[0]);
            assert(whole.drop_first() =~= rest.drop_first());
            lemma_join_head(rest);
            assert(spec_join(rest) == rest[0] + seq![sep_char()] + spec_join(rest.drop_first()));
            assert(spec_join(spec_split(s)) == (seq![s[0]] + rest[0]) + seq![sep_char()]
                + spec_join(rest.drop_first()));
            assert((seq![s[0]] + rest[0]) + seq![sep_char()] + spec_join(rest.drop_first()) =~= seq![
                s[0],
            ] + spec_join(rest));
            assert(seq![s[0]] + s.drop_first() =~= s);
        }
    }
}

/// No segment of a split holds a separator.
pub proof fn lemma_split_segments_sep_free(s: Seq<char>)
    ensures
        forall|i: int|
            0 <= i < spec_split(s).len() ==> !(#[trigger] spec_split(s)[i]).contains(sep_char()),
    decreases s.len(),
{
    if s.len() == 0 {
        assert forall|i: int|
            0 <= i < spec_split(s).len() implies !(#[trigger] spec_split(s)[i]).contains(
            sep_char(),
        ) by {
            assert(spec_split(s)[i] =~= Seq::<char>::empty());
        }
    } else if s[0] == sep_char() {
        lemma_split_segments_sep_free(s.drop_first());
        assert forall|i: int|
            0 <= i < spec_split(s).len() implies !(#[trigger] spec_split(s)[i]).contains(
            sep_char(),
        ) by {
            if i == 0 {
                assert(spec_split(s)[0] =~= Seq::<char>::empty());
            } else {
                assert(spec_split(s)[i] == spec_split(s.drop_first())[i - 1]);
            }
        }
    } else {
        lemma_split_segments_sep_free(s.drop_first());
        lemma_split_len(s.drop_first());
        let rest = spec_split(s.drop_first());
        assert forall|i: int|
            0 <= i < spec_split(s).len() implies !(#[trigger] spec_split(s)[i]).contains(
            sep_char(),
        ) by {
            if i == 0 {
                assert(spec_split(s)[0] == seq![s[0]] + rest[0]);
                assert(!rest[0].contains(sep_char()));
                assert forall|m: int|
                    0 <= m < (seq![s[0]] + rest[0]).len() implies (seq![s[0]] + rest[0])[m]
                    != sep_char() by {
                    if m == 0 {
                    } else {
                        assert((seq![s[0]] + rest[0])[m] == rest[0][m - 1]);
                    }
                }
            } else {
                assert(spec_split(s)[i] == rest.drop_first()[i - 1]);
                assert(rest.drop_first()[i - 1] == rest[i]);
            }
        }
    }
}

/// A separator-free text splits into itself alone.
pub proof fn lemma_split_no_sep(s: Seq<char>)
    requires
        !s.contains(sep_char()),
    ensures
        spec_split(s) == seq![s],
    decreases s.len(),
{
    if s.len() == 0 {
        assert(spec_split(s) =~~= seq![s]);
    } else {
        assert(s[0] != sep_char());
        assert(!s.drop_first().contains(sep_char())) by {
            if s.drop_first().contains(sep_char()) {
                let m = choose|m: int|
                    0 <= m < s.drop_first().len() && s.drop_first()[m] == sep_char();
                assert(s[m + 1] == sep_char());
            }
        }
        lemma_split_no_sep(s.drop_first());
        let rest = spec_split(s.drop_first());
        assert(rest == seq![s.drop_first()]);
        assert(spec_split(s) =~~= seq![seq![s[0]] + s.drop_first()]);
        assert(seq![s[0]] + s.drop_first() =~= s);
        assert(spec_split(s) =~~= seq![s]);
    }
}

/// Splitting after a separator-free prefix and a separator peels the
/// prefix off as the first segment.
pub proof fn lemma_split_prefix(a: Seq<char>, b: Seq<char>)
    requires
        !a.contains(sep_char()),
    ensures
        spec_split(a + seq![sep_char()] + b) == seq![a] + spec_split(b),
    decreases a.len(),
{
    let s = a + seq![sep_char()] + b;
    if a.len() == 0 {
        assert(s =~= seq![sep_char()] + b);
        assert(s[0] == sep_char());
        assert(s.drop_first() =~= b);
        assert(spec_split(s) =~~= seq![a] + spec_split(b));
    } else {
        assert(s[0] == a[0]);
        assert(a[0] != sep_char());
        assert(!a.drop_first().contains(sep_char())) by {
            if a.drop_first().contains(sep_char()) {
                let m = choose|m: int|
                    0 <= m < a.drop_first().len() && a.drop_first()[m] == sep_char();
                assert(a[m + 1] == sep_char());
            }
        }
        assert(s.drop_first() =~= a.drop_first() + seq![sep_char()] + b);
        lemma_split_prefix(a.drop_first(), b);
        let rest = spec_split(s.drop_first());
        assert(rest == seq![a.drop_first()] + spec_split(b));
        assert(rest[0] == a.drop_first());
        assert(rest.drop_first() =~= spec_split(b));
        assert(seq![s[0]] + rest[0] =~= a);
        assert(spec_split(s) =~~= seq![a] + spec_split(b));
    }
}

/// Splitting undoes joining, for separator-free segments.
pub proof fn lemma_split_join(segs: Seq<Seq<char>>)
    requires
        segs.len() >= 1,
        forall|i: int| 0 <= i < segs.len() ==> !(#[trigger] segs[i]).contains(sep_char()),
    ensures
        spec_split(spec_join(segs)) == segs,
    decreases segs.len(),
{
    if segs.len() == 1 {
        assert(spec_join(segs) == segs[0]);
        lemma_split_no_sep(segs[0]);
        assert(spec_split(spec_join(segs)) =~~= segs);
    } else {
        lemma_join_head(segs);
        assert(spec_join(segs) == segs[0] + seq![sep_char()] + spec_join(segs.drop_first()));
        assert(forall|i: int|
            0 <= i < segs.drop_first().len() ==> !(#[trigger] segs.drop_first()[i]).contains(
                sep_char(),
            ));
        lemma_split_join(segs.drop_first());
        lemma_split_prefix(segs[0], spec_join(segs.drop_first()));
        assert(spec_split(spec_join(segs)) =~~= segs);
    }
}

/// Joining one more segment appends a separator and the segment, as long
/// as there was at least one segment already.
pub proof fn lemma_join_push(segs: Seq<Seq<char>>, seg: Seq<char>)
    requires
        segs.len() >= 1,
    ensures
        spec_join(segs.push(seg)) == spec_join(segs) + seq![sep_char()] + seg,
{
    assert(segs.push(seg).drop_last() =~= segs);
    assert(segs.push(seg).last() == seg);
}

/// A stack of path segments with its joined string form.
#[derive(Clone)]
pub struct Path {
    segments: Vec<String>,
}

impl View for Path {
    type V = Seq<Seq<char>>;

    closed spec fn view(&self) -> Seq<Seq<char>> {
        self.segments.deep_view()
    }
}

impl Default for Path {
    /// An empty path.
    fn default() -> (p: Path)
        ensures
            p@ == Seq::<Seq<char>>::empty(),
    {
        Path::new()
    }
}

impl Path {
    /// An empty path, with no segments.
    pub fn new() -> (p: Path)
        ensures
            p@ == Seq::<Seq<char>>::empty(),
    {
        let p = Path { segments: Vec::new() };
        assert(p@ =~= Seq::<Seq<char>>::empty());
        p
    }

    /// The joined string form of the path: its segments in order,
    /// separated by the separator.
    pub fn path(&self) -> (r: String)
        ensures
            r@ == spec_join(self@),
    {
        let mut out = String::new();
        let n = self.segments.len();
        let mut i: usize = 0;
        while i < n
            invariant
                n == self.segments.len(),
                i <= n,
                out@ == spec_join(self@.take(i as int)),
            decreases n - i,
        {
            if i > 0 {
                out.append("\\");
                proof {
                    reveal_strlit("\\");
                    assert("\\"@ =~= seq![sep_char()]);
                }
            }
            out.append(self.segments[i].as_str());
            proof {
                let prev = self@.take(i as int);
                let cur = self@.take(i + 1);
                assert(cur.drop_last() =~= prev);
                assert(cur.last() == self@[i as int]);
                if i > 0 {
                    assert(out@ == spec_join(prev) + seq![sep_char()] + self@[i as int]);
                } else {
                    assert(prev.len() == 0);
                    assert(spec_join(prev) == Seq::<char>::empty());
                    assert(out@ =~= self@[i as int]);
                    assert(cur.len() == 1);
                }
            }
            i += 1;
        }
        proof {
            assert(self@.take(n as int) =~= self@);
        }
        out
    }

    /// Add one segment at the end.
    pub fn push(&mut self, segment: &str)
        ensures
            final(self)@ == old(self)@.push(segment@),
    {
        self.segments.push(segment.to_owned());
        proof {
            assert(final(self)@ =~= old(self)@.push(segment@));
        }
    }

    /// Remove and return the last segment, if there is one.
    pub fn pop(&mut self) -> (r: Option<String>)
        ensures
            old(self)@.len() == 0 ==> r is None && final(self)@ == old(self)@,
            old(self)@.len() > 0 ==> (r matches Some(s) && s@ == old(self)@.last()
                && final(self)@ == old(self)@.drop_last()),
    {
        let r = self.segments.pop();
        proof {
            if old(self)@.len() == 0 {
                assert(final(self)@ =~= old(self)@);
            } else {
                assert(final(self)@ =~= old(self)@.drop_last());
            }
        }
        r
    }

    /// The path split at every separator, one segment per entry.
    pub fn parse(s: &str) -> (p: Path)
        ensures
            p@ == spec_split(s@),
            p@.len() >= 1,
    {
        Path { segments: split_str(s) }
    }

    /// The path separator, as a string.
    pub fn separator() -> (r: String)
        ensures
            r@ == seq![sep_char()],
    {
        let r = String::from_str("\\");
        proof {
            reveal_strlit("\\");
            assert(r@ =~= seq![sep_char()]);
        }
        r
    }
}

impl From<&str> for Path {
    /// The path split at every separator.
    fn from(s: &str) -> (p: Path) {
        Path::parse(s)
    }
}

impl vstd::std_specs::convert::FromSpecImpl<&str> for Path {
    open spec fn obeys_from_spec() -> bool {
        false
    }

    open spec fn from_spec(s: &str) -> Path {
        choose|p: Path| p@ == spec_split(s@)
    }
}

/// A string split at every separator, one segment per entry.
pub fn split_str(s: &str) -> (r: Vec<String>)
    ensures
        r.deep_view() == spec_split(s@),
        r.len() >= 1,
{
    let chars = str_to_chars(s);
    let n = chars.len();
    let mut segs: Vec<String> = Vec::new();
    let mut cur: Vec<char> = Vec::new();
    let mut i: usize = 0;
    proof {
        assert(chars@.skip(0) =~= chars@);
        lemma_split_len(chars@);
    }
    while i < n
        invariant
            i <= n,
            n == chars@.len(),
            chars@ == s@,
            spec_split(chars@.skip(i as int)).len() >= 1,
            spec_split(chars@) =~= segs.deep_view() + seq![
                cur@ + spec_split(chars@.skip(i as int))[0],
            ] + spec_split(chars@.skip(i as int)).drop_first(),
        decreases n - i,
    {
        let ghost tail = chars@.skip(i as int);
        let ghost segs0 = segs.deep_view();
        let ghost cur0 = cur@;
        let c = chars[i];
        proof {
            assert(tail[0] == chars@[i as int]);
            assert(tail.drop_first() =~= chars@.skip(i + 1));
            lemma_split_len(chars@.skip(i + 1));
        }
        if c == '\\' {
            proof {
                assert(c == sep_char());
            }
            let seg = chars_to_string(&cur);
            segs.push(seg);
            cur = Vec::new();
            proof {
                let rest = spec_split(chars@.skip(i + 1));
                assert(spec_split(tail) == seq![Seq::<char>::empty()] + rest);
                assert(spec_split(tail)[0] == Seq::<char>::empty());
                assert(cur0 + spec_split(tail)[0] =~= cur0);
                assert(spec_split(tail).drop_first() =~= rest);
                assert(segs.deep_view() =~~= segs0.push(cur0));
                assert(spec_split(chars@) =~= segs.deep_view() + seq![cur@ + rest[0]]
                    + rest.drop_first()) by {
                    assert(rest =~= seq![rest[0]] + rest.drop_first());
                    assert(cur@ + rest[0] =~= rest[0]);
                }
            }
        } else {
            cur.push(c);
            proof {
                assert(c != sep_char());
                let rest = spec_split(chars@.skip(i + 1));
                assert(spec_split(tail) == seq![seq![tail[0]] + rest[0]] + rest.drop_first());
                assert(spec_split(tail)[0] == seq![tail[0]] + rest[0]);
                assert(spec_split(tail).drop_first() =~= rest.drop_first());
                assert(cur@ =~= cur0.push(c));
                assert(cur0 + (seq![tail[0]] + rest[0]) =~= cur@ + rest[0]);
                assert(spec_split(chars@) =~= segs.deep_view() + seq![cur@ + rest[0]]
                    + rest.drop_first());
            }
        }
        i += 1;
    }
    proof {
        assert(chars@.skip(n as int) =~= Seq::<char>::empty());
        assert(spec_split(chars@.skip(n as int)) == seq![Seq::<char>::empty()]);
    }
    let seg = chars_to_string(&cur);
    segs.push(seg);
    proof {
        let e = spec_split(Seq::<char>::empty());
        assert(e[0] == Seq::<char>::empty());
        assert(e.drop_first() =~= Seq::<Seq<char>>::empty());
        assert(cur@ + e[0] =~= cur@);
        assert(segs.deep_view() =~~= spec_split(chars@));
    }
    segs
}

} // verus!
