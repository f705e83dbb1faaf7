//! Typed values of the store and their decoder.
//!
//! A raw value carries the store's numeric type tag beside its bytes.
//! Decoding maps it into the closed set of `RegistriesData` variants:
//! it either fully succeeds into one of them or falls back to
//! `RegistriesData::Nothing` (undecodable value of a known type) or
//! `RegistriesData::Raw` (unknown type tag, kept for diagnostics); it
//! never fails and never panics.

use vstd::prelude::*;

use crate::utf16::spec_decode_utf16;
use crate::utf16::spec_decode_utf16_lossy;
use crate::utf16::spec_utf16_valid;
use crate::utf16::decode_utf16_lossy;
use crate::utf16::decode_utf16_strict;

verus! {

/// The store's type tag for fixed-width text.
pub const TAG_STRING: u32 = 1;

/// The store's type tag for fixed-width text with unexpanded variables.
pub const TAG_EXPAND_STRING: u32 = 2;

/// The store's type tag for binary data.
pub const TAG_BYTES: u32 = 3;

/// The store's type tag for a 32-bit integer.
pub const TAG_U32: u32 = 4;

/// The store's type tag for a list of fixed-width texts.
pub const TAG_MULTI_STRING: u32 = 7;

/// The store's type tag for a 64-bit integer.
pub const TAG_U64: u32 = 11;

/// One raw typed value as the store reports it: a type tag and bytes.
pub struct RawValue {
    pub ty: u32,
    pub data: Vec<u8>,
}

/// The mathematical value of one raw value.
pub struct RawModel {
    pub ty: u32,
    pub data: Seq<u8>,
}

impl View for RawValue {
    type V = RawModel;

    open spec fn view(&self) -> RawModel {
        RawModel { ty: self.ty, data: self.data@ }
    }
}

/// The mathematical value of one decoded store value.
pub enum DataModel {
    U32(u32),
    U64(u64),
    Str(Seq<char>),
    MultiStr(Seq<Seq<char>>),
    Bytes(Seq<u8>),
    Raw(u32),
    Nothing,
}

/// One decoded value: exactly one variant is active, and no variant
/// carries partial state.
#[derive(Debug)]
pub enum RegistriesData {
    U32(u32),
    U64(u64),
    String(String),
    MultiString(Vec<String>),
    Bytes(Vec<u8>),
    Raw(u32),
    Nothing,
}

impl View for RegistriesData {
    type V = DataModel;

    open spec fn view(&self) -> DataModel {
        match self {
            RegistriesData::U32(x) => DataModel::U32(*x),
            RegistriesData::U64(x) => DataModel::U64(*x),
            RegistriesData::String(s) => DataModel::Str(s@),
            RegistriesData::MultiString(v) => DataModel::MultiStr(v.deep_view()),
            RegistriesData::Bytes(b) => DataModel::Bytes(b@),
            RegistriesData::Raw(t) => DataModel::Raw(*t),
            RegistriesData::Nothing => DataModel::Nothing,
        }
    }
}

impl Clone for RegistriesData {
    /// A clone has the same mathematical value.
    fn clone(&self) -> (r: Self)
        ensures
            r@ == self@,
    {
        match self {
            RegistriesData::U32(x) => RegistriesData::U32(*x),
            RegistriesData::U64(x) => RegistriesData::U64(*x),
            RegistriesData::String(s) => RegistriesData::String(s.clone()),
            RegistriesData::MultiString(v) => {
                let mut out: Vec<String> = Vec::new();
                let n = v.len();
                let mut i: usize = 0;
                while i < n
                    invariant
                        i <= n,
                        n == v@.len(),
                        out.deep_view() == v.deep_view().take(i as int),
                    decreases n - i,
                {
                    out.push(v[i].clone());
                    proof {
                        assert(v.deep_view().take(i + 1) =~= v.deep_view().take(i as int).push(
                            v@[i as int]@,
                        ));
                        assert(out.deep_view() =~= v.deep_view().take(i + 1));
                    }
                    i += 1;
                }
                proof {
                    assert(v.deep_view().take(n as int) =~= v.deep_view());
                }
                RegistriesData::MultiString(out)
            },
            RegistriesData::Bytes(b) => {
                let mut out: Vec<u8> = Vec::new();
                let n = b.len();
                let mut i: usize = 0;
                while i < n
                    invariant
                        i <= n,
                        n == b@.len(),
                        out@ == b@.take(i as int),
                    decreases n - i,
                {
                    out.push(b[i]);
                    proof {
                        assert(b@.take(i + 1) =~= b@.take(i as int).push(b@[i as int]));
                    }
                    i += 1;
                }
                proof {
                    assert(b@.take(n as int) =~= b@);
                }
                RegistriesData::Bytes(out)
            },
            RegistriesData::Raw(t) => RegistriesData::Raw(*t),
            RegistriesData::Nothing => RegistriesData::Nothing,
        }
    }
}

/// The bytes reinterpreted as 16-bit code units, little endian; a
/// trailing odd byte does not form a unit and is dropped.
pub open spec fn spec_wide_of(b: Seq<u8>) -> Seq<u16>
    decreases b.len(),
{
    if b.len() < 2 {
        Seq::empty()
    } else {
        seq![(b[0] + b[1] * 0x100) as u16] + spec_wide_of(b.skip(2))
    }
}

/// The 32-bit integer held by four little-endian bytes.
pub open spec fn spec_u32_le(b: Seq<u8>) -> u32 {
    (b[0] + b[1] * 0x100 + b[2] * 0x10000 + b[3] * 0x1000000) as u32
}

/// The 64-bit integer held by eight little-endian bytes.
pub open spec fn spec_u64_le(b: Seq<u8>) -> u64 {
    (b[0] + b[1] * 0x100 + b[2] * 0x10000 + b[3] * 0x1000000 + b[4] * 0x100000000 + b[5]
        * 0x10000000000 + b[6] * 0x1000000000000 + b[7] * 0x100000000000000) as u64
}

/// The code units split at every zero unit.
pub open spec fn spec_split_nul(s: Seq<u16>) -> Seq<Seq<u16>>
    decreases s.len(),
{
    if s.len() == 0 {
        seq![Seq::<u16>::empty()]
    } else if s[0] == 0 {
        seq![Seq::<u16>::empty()] + spec_split_nul(s.drop_first())
    } else {
        let rest = spec_split_nul(s.drop_first());
        seq![seq![s[0]] + rest[0]] + rest.drop_first()
    }
}

/// The longest prefix of non-empty segments.
pub open spec fn spec_lead_segments(segs: Seq<Seq<u16>>) -> Seq<Seq<u16>>
    decreases segs.len(),
{
    if segs.len() == 0 {
        Seq::empty()
    } else if segs[0].len() == 0 {
        Seq::empty()
    } else {
        seq![segs[0]] + spec_lead_segments(segs.drop_first())
    }
}

/// Whether a multi-string buffer is accepted: it must end with a zero
/// unit, a non-empty list must end with two, and every list entry must
/// be well-formed UTF-16.
pub open spec fn spec_multi_valid(wide: Seq<u16>) -> bool {
    &&& wide.len() > 0
    &&& wide[wide.len() - 1] == 0
    &&& (wide.len() < 2 || wide[wide.len() - 2] == 0)
    &&& (forall|k: int|
        0 <= k < spec_lead_segments(spec_split_nul(wide)).len() ==> spec_utf16_valid(
            #[trigger] spec_lead_segments(spec_split_nul(wide))[k],
        ))
}

/// The texts of an accepted multi-string buffer: its zero-separated
/// entries up to the list terminator, each decoded.
pub open spec fn spec_multi_decode(wide: Seq<u16>) -> Seq<Seq<char>> {
    spec_lead_segments(spec_split_nul(wide)).map_values(|seg: Seq<u16>| spec_decode_utf16(seg))
}

/// What decoding a raw value yields, for every type tag and byte string.
pub open spec fn spec_decode_value(ty: u32, data: Seq<u8>) -> DataModel {
    if ty == TAG_STRING || ty == TAG_EXPAND_STRING {
        DataModel::Str(spec_decode_utf16_lossy(spec_wide_of(data)))
    } else if ty == TAG_MULTI_STRING {
        if spec_multi_valid(spec_wide_of(data)) {
            DataModel::MultiStr(spec_multi_decode(spec_wide_of(data)))
        } else {
            DataModel::Nothing
        }
    } else if ty == TAG_U32 {
        if data.len() == 4 {
            DataModel::U32(spec_u32_le(data))
        } else {
            DataModel::Nothing
        }
    } else if ty == TAG_U64 {
        if data.len() == 8 {
            DataModel::U64(spec_u64_le(data))
        } else {
            DataModel::Nothing
        }
    } else if ty == TAG_BYTES {
        DataModel::Bytes(data)
    } else {
        DataModel::Raw(ty)
    }
}

/// The unknown-type fallback: a raw value whose type tag is not one of
/// the recognized tags decodes to `Raw` with that very tag — it is
/// never an error and never drops the value.
pub proof fn lemma_unknown_tag_decodes_to_raw(ty: u32, data: Seq<u8>)
    requires
        ty != TAG_STRING,
        ty != TAG_EXPAND_STRING,
        ty != TAG_MULTI_STRING,
        ty != TAG_U32,
        ty != TAG_U64,
        ty != TAG_BYTES,
    ensures
        spec_decode_value(ty, data) == DataModel::Raw(ty),
{
}

/// The bytes of a raw value as 16-bit code units.
fn wide_of(data: &Vec<u8>) -> (r: Vec<u16>)
    ensures
        r@ == spec_wide_of(data@),
{
    let n = data.len();
    let mut out: Vec<u16> = Vec::new();
    let mut i: usize = 0;
    proof {
        assert(data@.skip(0) =~= data@);
    }
    while i + 1 < n
        invariant
            i <= n,
            i % 2 == 0,
            n == data@.len(),
            spec_wide_of(data@) == out@ + spec_wide_of(data@.skip(i as int)),
        decreases n - i,
    {
        let ghost tail = data@.skip(i as int);
        let lo = data[i] as u16;
        let hi = data[i + 1] as u16;
        let unit: u16 = lo + hi * 0x100;
        proof {
            assert(tail.len() >= 2);
            assert(tail[0] == data@[i as int] && tail[1] == data@[i + 1]);
            assert(unit == (tail[0] + tail[1] * 0x100) as u16);
            assert(tail.skip(2) =~= data@.skip(i + 2));
            assert(spec_wide_of(tail) == seq![(tail[0] + tail[1] * 0x100) as u16] + spec_wide_of(
                tail.skip(2),
            ));
        }
        out.push(unit);
        proof {
            assert(spec_wide_of(data@) =~= out@ + spec_wide_of(data@.skip(i + 2)));
        }
        i += 2;
    }
    proof {
        assert(data@.skip(i as int).len() < 2);
        assert(spec_wide_of(data@.skip(i as int)) =~= Seq::<u16>::empty());
        assert(out@ =~= spec_wide_of(data@));
    }
    out
}

/// The code units split at every zero unit.
fn split_nul(wide: &Vec<u16>) -> (r: Vec<Vec<u16>>)
    ensures
        r.deep_view() == spec_split_nul(wide@),
        r.len() >= 1,
{
    let n = wide.len();
    let mut segs: Vec<Vec<u16>> = Vec::new();
    let mut cur: Vec<u16> = Vec::new();
    let mut i: usize = 0;
    proof {
        assert(wide@.skip(0) =~= wide@);
        lemma_split_nul_len(wide@);
    }
    while i < n
        invariant
            i <= n,
            n == wide@.len(),
            spec_split_nul(wide@.skip(i as int)).len() >= 1,
            spec_split_nul(wide@) =~= segs.deep_view() + seq![
                cur@ + spec_split_nul(wide@.skip(i as int))[0],
            ] + spec_split_nul(wide@.skip(i as int)).drop_first(),
        decreases n - i,
    {
        let ghost tail = wide@.skip(i as int);
        let ghost segs0 = segs.deep_view();
        let ghost cur0 = cur@;
        let u = wide[i];
        proof {
            assert(tail[0] == wide@[i as int]);
            assert(tail.drop_first() =~= wide@.skip(i + 1));
            lemma_split_nul_len(wide@.skip(i + 1));
        }
        if u == 0 {
            segs.push(cur);
            cur = Vec::new();
            proof {
                let rest = spec_split_nul(wide@.skip(i + 1));
                assert(spec_split_nul(tail) == seq![Seq::<u16>::empty()] + rest);
                assert(spec_split_nul(tail)[0] == Seq::<u16>::empty());
                assert(cur0 + spec_split_nul(tail)[0] =~= cur0);
                assert(spec_split_nul(tail).drop_first() =~= rest);
                assert(segs.deep_view() =~~= segs0.push(cur0));
                assert(segs0 + seq![cur0] + rest =~= segs.deep_view() + seq![cur@ + rest[0]]
                    + rest.drop_first() + seq![rest[0] + Seq::<u16>::empty()].drop_first());
                assert(spec_split_nul(wide@) =~= segs.deep_view() + seq![cur@ + rest[0]]
                    + rest.drop_first()) by {
                    assert(rest =~= seq![rest[0]] + rest.drop_first());
                    assert(cur@ + rest[0] =~= rest[0]);
                    assert(segs0 + seq![cur0 + spec_split_nul(tail)[0]] + spec_split_nul(
                        tail,
                    ).drop_first() =~= segs.deep_view() + seq![cur@ + rest[0]] + rest.drop_first());
                }
            }
        } else {
            cur.push(u);
            proof {
                let rest = spec_split_nul(wide@.skip(i + 1));
                assert(spec_split_nul(tail) == seq![seq![tail[0]] + rest[0]] + rest.drop_first());
                assert(spec_split_nul(tail)[0] == seq![tail[0]] + rest[0]);
                assert(spec_split_nul(tail).drop_first() =~= rest.drop_first());
                assert(cur@ =~= cur0.push(u));
                assert(cur0 + (seq![tail[0]] + rest[0]) =~= cur@ + rest[0]);
                assert(spec_split_nul(wide@) =~= segs.deep_view() + seq![cur@ + rest[0]]
                    + rest.drop_first());
            }
        }
        i += 1;
    }
    proof {
        assert(wide@.skip(n as int) =~= Seq::<u16>::empty());
        assert(spec_split_nul(wide@.skip(n as int)) == seq![Seq::<u16>::empty()]);
    }
    segs.push(cur);
    proof {
        let e = spec_split_nul(Seq::<u16>::empty());
        assert(e[0] == Seq::<u16>::empty());
        assert(e.drop_first() =~= Seq::<Seq<u16>>::empty());
        assert(segs.deep_view() =~~= spec_split_nul(wide@));
    }
    segs
}

pub proof fn lemma_split_nul_len(s: Seq<u16>)
    ensures
        spec_split_nul(s).len() >= 1,
    decreases s.len(),
{
    if s.len() != 0 {
        lemma_split_nul_len(s.drop_first());
    }
}

/// The entries of a multi-string buffer, each decoded strictly; `None`
/// exactly when the buffer is not an accepted multi-string.
fn decode_multi(wide: &Vec<u16>) -> (r: Option<Vec<String>>)
    ensures
        spec_multi_valid(wide@) ==> (r matches Some(v) && v.deep_view() == spec_multi_decode(
            wide@,
        )),
        !spec_multi_valid(wide@) ==> r is None,
{
    let n = wide.len();
    if n == 0 || wide[n - 1] != 0 {
        return Option::None;
    }
    if n >= 2 && wide[n - 2] != 0 {
        return Option::None;
    }
    let segs = split_nul(wide);
    let ghost lead = spec_lead_segments(spec_split_nul(wide@));
    // find the first empty segment; the leading segments are the list
    let mut cut: usize = 0;
    let m = segs.len();
    while cut < m && segs[cut].len() != 0
        invariant
            cut <= m,
            m == segs@.len(),
            segs.deep_view() == spec_split_nul(wide@),
            forall|j: int| 0 <= j < cut ==> segs.deep_view()[j].len() != 0,
        decreases m - cut,
    {
        cut += 1;
    }
    proof {
        lemma_lead_segments_is_take(segs.deep_view(), cut as int);
    }
    // decode each entry of the list strictly
    let mut out: Vec<String> = Vec::new();
    let mut k: usize = 0;
    while k < cut
        invariant
            k <= cut <= m,
            m == segs@.len(),
            segs.deep_view() == spec_split_nul(wide@),
            lead == spec_lead_segments(spec_split_nul(wide@)),
            lead == segs.deep_view().take(cut as int),
            forall|j: int| 0 <= j < k ==> spec_utf16_valid(#[trigger] lead[j]),
            out.deep_view() =~~= lead.take(k as int).map_values(
                |seg: Seq<u16>| spec_decode_utf16(seg),
            ),
        decreases cut - k,
    {
        proof {
            assert(segs@[k as int]@ =~= segs.deep_view()[k as int]);
            assert(lead[k as int] == segs.deep_view()[k as int]);
            assert(lead[k as int] == segs@[k as int]@);
        }
        let ghost prev = out.deep_view();
        match decode_utf16_strict(segs[k].as_slice()) {
            Option::Some(text) => {
                proof {
                    assert(text@ == spec_decode_utf16(lead[k as int]));
                }
                out.push(text);
                proof {
                    assert(out.deep_view() =~~= prev.push(spec_decode_utf16(lead[k as int])));
                    assert(lead.take(k + 1) =~= lead.take(k as int).push(lead[k as int]));
                    assert(out.deep_view() =~~= lead.take(k + 1).map_values(
                        |seg: Seq<u16>| spec_decode_utf16(seg),
                    ));
                }
            },
            Option::None => {
                proof {
                    assert(!spec_utf16_valid(lead[k as int]));
                    assert(!spec_multi_valid(wide@));
                }
                return Option::None;
            },
        }
        k += 1;
    }
    proof {
        assert(lead.take(cut as int) =~= lead);
        assert(lead.len() == cut);
        assert(forall|j: int| 0 <= j < lead.len() ==> spec_utf16_valid(#[trigger] lead[j]));
        assert(spec_multi_valid(wide@));
        assert(out.deep_view() =~~= spec_multi_decode(wide@));
    }
    Option::Some(out)
}

/// The longest prefix of non-empty segments, index form.
proof fn lemma_lead_segments_is_take(segs: Seq<Seq<u16>>, i: int)
    requires
        0 <= i <= segs.len(),
        forall|j: int| 0 <= j < i ==> #[trigger] segs[j].len() != 0,
        i == segs.len() || segs[i].len() == 0,
    ensures
        spec_lead_segments(segs) == segs.take(i),
    decreases segs.len(),
{
    if segs.len() == 0 || i == 0 {
        assert(spec_lead_segments(segs) =~= segs.take(i));
    } else {
        let rest = segs.drop_first();
        assert(segs[0].len() != 0);
        assert(forall|j: int| 0 <= j < i - 1 ==> #[trigger] rest[j].len() != 0);
        assert(i - 1 == rest.len() || rest[i - 1].len() == 0);
        lemma_lead_segments_is_take(rest, i - 1);
        assert(spec_lead_segments(segs) == seq![segs[0]] + rest.take(i - 1));
        assert(seq![segs[0]] + rest.take(i - 1) =~= segs.take(i));
    }
}

/// Decode one raw value of the store into its `RegistriesData` variant.
pub fn decode_value(raw: &RawValue) -> (d: RegistriesData)
    ensures
        d@ == spec_decode_value(raw.ty, raw.data@),
{
    if raw.ty == TAG_STRING || raw.ty == TAG_EXPAND_STRING {
        let wide = wide_of(&raw.data);
        RegistriesData::String(decode_utf16_lossy(wide.as_slice()))
    } else if raw.ty == TAG_MULTI_STRING {
        let wide = wide_of(&raw.data);
        match decode_multi(&wide) {
            Option::Some(texts) => RegistriesData::MultiString(texts),
            Option::None => RegistriesData::Nothing,
        }
    } else if raw.ty == TAG_U32 {
        if raw.data.len() == 4 {
            let x: u32 = (raw.data[0] as u32) + (raw.data[1] as u32) * 0x100 + (raw.data[2] as u32)
                * 0x10000 + (raw.data[3] as u32) * 0x1000000;
            RegistriesData::U32(x)
        } else {
            RegistriesData::Nothing
        }
    } else if raw.ty == TAG_U64 {
        if raw.data.len() == 8 {
            let x: u64 = (raw.data[0] as u64) + (raw.data[1] as u64) * 0x100 + (raw.data[2] as u64)
                * 0x10000 + (raw.data[3] as u64) * 0x1000000 + (raw.data[4] as u64) * 0x100000000
                + (raw.data[5] as u64) * 0x10000000000 + (raw.data[6] as u64) * 0x1000000000000 + (
            raw.data[7] as u64) * 0x100000000000000;
            RegistriesData::U64(x)
        } else {
            RegistriesData::Nothing
        }
    } else if raw.ty == TAG_BYTES {
        let mut out: Vec<u8> = Vec::new();
        let n = raw.data.len();
        let mut i: usize = 0;
        while i < n
            invariant
                i <= n,
                n == raw.data@.len(),
                out@ == raw.data@.take(i as int),
            decreases n - i,
        {
            out.push(raw.data[i]);
            proof {
                assert(raw.data@.take(i + 1) =~= raw.data@.take(i as int).push(
                    raw.data@[i as int],
                ));
            }
            i += 1;
        }
        proof {
            assert(raw.data@.take(n as int) =~= raw.data@);
        }
        RegistriesData::Bytes(out)
    } else {
        RegistriesData::Raw(raw.ty)
    }
}

} // verus!
