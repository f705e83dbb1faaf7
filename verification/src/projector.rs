//! Read-only projections of a built tree: compact JSON, pretty JSON,
//! and an indented text outline.
//!
//! Both JSON forms render one abstract JSON value, so they describe the
//! same node set, the same parent/child relationships and the same
//! value sets; the pretty form only adds whitespace.

use vstd::prelude::*;

use crate::arena::NodeId;
use crate::arena::NodeModel;
use crate::data::DataModel;
use crate::item::ItemModel;
use crate::registry_tree::RegistriesTree;

verus! {

/// An abstract JSON value: what both serializers render.
pub enum Json {
    Str(Seq<char>),
    UInt(nat),
    Arr(Seq<Json>),
    Obj(Seq<(Seq<char>, Json)>),
}

/// The decimal form of a number.
pub open spec fn spec_dec(n: nat) -> Seq<char>
    decreases n,
{
    if n < 10 {
        seq![(48 + n) as char]
    } else {
        spec_dec(n / 10).push((48 + n % 10) as char)
    }
}

/// The lower-case hexadecimal digit for a value below 16.
pub open spec fn spec_hex_digit(n: int) -> char {
    if n < 10 {
        (48 + n) as char
    } else {
        (87 + n) as char
    }
}

/// How one character is written inside a JSON string literal.
pub open spec fn spec_escape_char(c: char) -> Seq<char> {
    if c == '"' {
        seq!['\\', '"']
    } else if c == '\\' {
        seq!['\\', '\\']
    } else if c == '\n' {
        seq!['\\', 'n']
    } else if c == '\r' {
        seq!['\\', 'r']
    } else if c == '\t' {
        seq!['\\', 't']
    } else if (c as int) < 0x20 {
        seq!['\\', 'u', '0', '0', spec_hex_digit(c as int / 16), spec_hex_digit(c as int % 16)]
    } else {
        seq![c]
    }
}

/// A whole string escaped.
pub open spec fn spec_escape(s: Seq<char>) -> Seq<char> {
    s.map_values(|c: char| spec_escape_char(c)).flatten()
}

/// The compact rendering of a JSON value, with no whitespace at all.
pub open spec fn spec_render(j: Json) -> Seq<char>
    decreases j, 1int, 0int,
{
    match j {
        Json::Str(s) => seq!['"'] + spec_escape(s) + seq!['"'],
        Json::UInt(n) => spec_dec(n),
        Json::Arr(items) => seq!['['] + spec_render_list(items) + seq![']'],
        Json::Obj(pairs) => seq!['{'] + spec_render_pairs(pairs) + seq!['}'],
    }
}

/// The comma-separated renderings of an array's items.
pub open spec fn spec_render_list(items: Seq<Json>) -> Seq<char>
    decreases items, 0int, items.len(),
{
    if items.len() == 0 {
        Seq::empty()
    } else if items.len() == 1 {
        spec_render(items[0])
    } else {
        spec_render_list(items.drop_last()) + seq![','] + spec_render(items.last())
    }
}

/// The comma-separated renderings of an object's fields.
pub open spec fn spec_render_pairs(pairs: Seq<(Seq<char>, Json)>) -> Seq<char>
    decreases pairs, 0int, pairs.len(),
{
    if pairs.len() == 0 {
        Seq::empty()
    } else if pairs.len() == 1 {
        spec_render_pair(pairs[0])
    } else {
        spec_render_pairs(pairs.drop_last()) + seq![','] + spec_render_pair(pairs.last())
    }
}

/// One `"key":value` field.
pub open spec fn spec_render_pair(pair: (Seq<char>, Json)) -> Seq<char>
    decreases pair, 1int, 0int,
{
    seq!['"'] + spec_escape(pair.0) + seq!['"', ':'] + spec_render(pair.1)
}

/// The JSON value of one decoded store value, tagged with its variant
/// name; the undecodable marker renders as the bare string `"None"`.
pub open spec fn spec_json_of_data(d: DataModel) -> Json {
    match d {
        DataModel::U32(x) => Json::Obj(seq![("U32"@, Json::UInt(x as nat))]),
        DataModel::U64(x) => Json::Obj(seq![("U64"@, Json::UInt(x as nat))]),
        DataModel::Str(s) => Json::Obj(seq![("String"@, Json::Str(s))]),
        DataModel::MultiStr(v) => Json::Obj(
            seq![("MultiString"@, Json::Arr(v.map_values(|s: Seq<char>| Json::Str(s))))],
        ),
        DataModel::Bytes(b) => Json::Obj(
            seq![("Bytes"@, Json::Arr(b.map_values(|x: u8| Json::UInt(x as nat))))],
        ),
        DataModel::Raw(t) => Json::Obj(seq![("Raw"@, Json::UInt(t as nat))]),
        DataModel::Nothing => Json::Str("None"@),
    }
}

/// The JSON value of one node's payload: its key path and its value
/// map, in insertion order.
pub open spec fn spec_json_of_item(item: ItemModel) -> Json {
    Json::Obj(
        seq![
            ("key_path"@, Json::Str(item.key_path)),
            (
                "value_map"@,
                Json::Obj(
                    item.values.map_values(
                        |e: (Seq<char>, DataModel)| (e.0, spec_json_of_data(e.1)),
                    ),
                ),
            ),
        ],
    )
}

/// The JSON value of one node and its subtree: the payload under
/// `data`, then the children in insertion order under `children`.
pub open spec fn spec_json_of_node(v: Seq<NodeModel>, i: int) -> Json
    decreases v.len() - i, 1int,
{
    if 0 <= i < v.len() {
        Json::Obj(
            seq![
                ("data"@, spec_json_of_item(v[i].item)),
                ("children"@, Json::Arr(spec_json_of_kids(v, v[i].children, i))),
            ],
        )
    } else {
        Json::Str(Seq::empty())
    }
}

/// The JSON values of a run of child nodes; links that do not point
/// strictly forward are skipped, which a well-formed arena never has.
pub open spec fn spec_json_of_kids(v: Seq<NodeModel>, ids: Seq<int>, floor: int) -> Seq<Json>
    decreases v.len() - floor, 0int, ids.len(),
{
    if ids.len() == 0 {
        Seq::empty()
    } else if floor < ids[0] < v.len() {
        seq![spec_json_of_node(v, ids[0])] + spec_json_of_kids(v, ids.drop_first(), floor)
    } else {
        spec_json_of_kids(v, ids.drop_first(), floor)
    }
}

/// With every link pointing strictly forward, the children's JSON
/// values are exactly the elementwise image of their ids.
pub proof fn lemma_kids_map(v: Seq<NodeModel>, ids: Seq<int>, floor: int)
    requires
        forall|k: int| 0 <= k < ids.len() ==> floor < #[trigger] ids[k] < v.len(),
    ensures
        spec_json_of_kids(v, ids, floor) == Seq::new(
            ids.len(),
            |k: int| spec_json_of_node(v, ids[k]),
        ),
    decreases ids.len(),
{
    if ids.len() == 0 {
        assert(spec_json_of_kids(v, ids, floor) =~= Seq::new(
            ids.len(),
            |k: int| spec_json_of_node(v, ids[k]),
        ));
    } else {
        assert(forall|k: int|
            0 <= k < ids.drop_first().len() ==> floor < #[trigger] ids.drop_first()[k] < v.len());
        lemma_kids_map(v, ids.drop_first(), floor);
        assert(spec_json_of_kids(v, ids, floor) =~= Seq::new(
            ids.len(),
            |k: int| spec_json_of_node(v, ids[k]),
        ));
    }
}

/// The compact JSON text of a whole tree, from the root down.
pub open spec fn spec_to_json(t: &RegistriesTree) -> Seq<char> {
    spec_render(spec_json_of_node(t.store(), t.root_id()))
}

/// Append the characters of a string slice.
pub(crate) fn push_str_chars(out: &mut Vec<char>, s: &str)
    ensures
        final(out)@ == old(out)@ + s@,
{
    let chars = crate::text::str_to_chars(s);
    let n = chars.len();
    let mut i: usize = 0;
    while i < n
        invariant
            i <= n,
            n == chars@.len(),
            chars@ == s@,
            out@ =~= old(out)@ + s@.take(i as int),
        decreases n - i,
    {
        out.push(chars[i]);
        proof {
            assert(out@ =~= old(out)@ + s@.take(i + 1));
        }
        i += 1;
    }
    proof {
        assert(s@.take(n as int) =~= s@);
        assert(out@ =~= old(out)@ + s@);
    }
}

/// Extending a string extends its escaped form.
pub proof fn lemma_escape_push(s: Seq<char>, c: char)
    ensures
        spec_escape(s.push(c)) == spec_escape(s) + spec_escape_char(c),
{
    let f = |x: char| spec_escape_char(x);
    assert(s.push(c).map_values(f) =~= s.map_values(f).push(spec_escape_char(c)));
    s.map_values(f).lemma_flatten_push(spec_escape_char(c));
}

/// A character that JSON writes as itself.
pub open spec fn is_plain_char(c: char) -> bool {
    c != '"' && c != '\\' && c != '\n' && c != '\r' && c != '\t' && c as int >= 0x20
}

/// A string of plain characters escapes to itself.
pub proof fn lemma_escape_plain(s: Seq<char>)
    requires
        forall|i: int| 0 <= i < s.len() ==> is_plain_char(#[trigger] s[i]),
    ensures
        spec_escape(s) == s,
    decreases s.len(),
{
    let f = |x: char| spec_escape_char(x);
    if s.len() == 0 {
        assert(s.map_values(f) =~= Seq::<Seq<char>>::empty());
        assert(spec_escape(s) =~= s);
    } else {
        let body = s.drop_last();
        assert(forall|i: int| 0 <= i < body.len() ==> is_plain_char(#[trigger] body[i]));
        lemma_escape_plain(body);
        assert(body.push(s.last()) =~= s);
        lemma_escape_push(body, s.last());
        assert(is_plain_char(s.last()));
        assert(spec_escape_char(s.last()) == seq![s.last()]);
        assert(spec_escape(s) =~= s);
    }
}

/// Append a string's characters, escaped for a JSON string literal.
fn push_escaped(out: &mut Vec<char>, s: &str)
    ensures
        final(out)@ == old(out)@ + spec_escape(s@),
{
    let chars = crate::text::str_to_chars(s);
    let n = chars.len();
    let mut i: usize = 0;
    proof {
        assert(s@.take(0) =~= Seq::<char>::empty());
        assert(Seq::<char>::empty().map_values(|x: char| spec_escape_char(x)) =~= Seq::<
            Seq<char>,
        >::empty());
        assert(spec_escape(s@.take(0)) =~= Seq::<char>::empty());
        assert(out@ =~= old(out)@ + spec_escape(s@.take(0)));
    }
    while i < n
        invariant
            i <= n,
            n == chars@.len(),
            chars@ == s@,
            out@ == old(out)@ + spec_escape(s@.take(i as int)),
        decreases n - i,
    {
        let c = chars[i];
        proof {
            vstd::utf8::char_is_scalar(c);
            vstd::utf8::char_u32_cast(c, c as u32);
        }
        let code = c as u32;
        proof {
            assert(code as int == c as int);
        }
        if c == '"' {
            out.push('\\');
            out.push('"');
        } else if c == '\\' {
            out.push('\\');
            out.push('\\');
        } else if c == '\n' {
            out.push('\\');
            out.push('n');
        } else if c == '\r' {
            out.push('\\');
            out.push('r');
        } else if c == '\t' {
            out.push('\\');
            out.push('t');
        } else if code < 0x20 {
            out.push('\\');
            out.push('u');
            out.push('0');
            out.push('0');
            let hi = code / 16;
            let lo = code % 16;
            let hic: char = if hi < 10 {
                crate::text::char_from_u32(48 + hi)
            } else {
                crate::text::char_from_u32(87 + hi)
            };
            let loc: char = if lo < 10 {
                crate::text::char_from_u32(48 + lo)
            } else {
                crate::text::char_from_u32(87 + lo)
            };
            out.push(hic);
            out.push(loc);
            proof {
                assert(code as int == c as int);
                assert(hi as int == (c as int) / 16);
                assert(lo as int == (c as int) % 16);
                assert(hic == spec_hex_digit(c as int / 16));
                assert(loc == spec_hex_digit(c as int % 16));
            }
        } else {
            out.push(c);
        }
        proof {
            assert(s@.take(i + 1) =~= s@.take(i as int).push(s@[i as int]));
            lemma_escape_push(s@.take(i as int), s@[i as int]);
            assert(out@ =~= old(out)@ + spec_escape(s@.take(i + 1)));
        }
        i += 1;
    }
    proof {
        assert(s@.take(n as int) =~= s@);
    }
}

/// Append a number in decimal.
fn push_dec(out: &mut Vec<char>, n: u64)
    ensures
        final(out)@ == old(out)@ + spec_dec(n as nat),
    decreases n,
{
    if n < 10 {
        let d = crate::text::char_from_u32(48 + (n as u32));
        out.push(d);
        proof {
            assert(out@ =~= old(out)@ + spec_dec(n as nat));
        }
    } else {
        push_dec(out, n / 10);
        let d = crate::text::char_from_u32(48 + ((n % 10) as u32));
        out.push(d);
        proof {
            assert(out@ =~= old(out)@ + spec_dec(n as nat));
        }
    }
}

/// Append one `"..."` JSON string literal.
pub(crate) fn push_json_string(out: &mut Vec<char>, s: &str)
    ensures
        final(out)@ == old(out)@ + spec_render(Json::Str(s@)),
{
    out.push('"');
    push_escaped(out, s);
    out.push('"');
    proof {
        assert(out@ =~= old(out)@ + spec_render(Json::Str(s@)));
    }
}

/// Append the compact JSON value of one decoded store value.
pub(crate) fn emit_data(out: &mut Vec<char>, d: &crate::data::RegistriesData)
    ensures
        final(out)@ == old(out)@ + spec_render(spec_json_of_data(d@)),
{
    match d {
        crate::data::RegistriesData::U32(x) => {
            push_str_chars(out, "{\"U32\":");
            push_dec(out, *x as u64);
            out.push('}');
            proof {
                assert((*x as u64) as nat == *x as nat);
                reveal_strlit("{\"U32\":");
                reveal_strlit("U32");
                let j = spec_json_of_data(d@);
                assert(spec_render_pairs(seq![("U32"@, Json::UInt(*x as nat))])
                    == spec_render_pair(("U32"@, Json::UInt(*x as nat))));
                lemma_escape_plain("U32"@);
                assert(out@ =~= old(out)@ + spec_render(j));
            }
        },
        crate::data::RegistriesData::U64(x) => {
            push_str_chars(out, "{\"U64\":");
            push_dec(out, *x);
            out.push('}');
            proof {
                reveal_strlit("{\"U64\":");
                reveal_strlit("U64");
                let j = spec_json_of_data(d@);
                assert(spec_render_pairs(seq![("U64"@, Json::UInt(*x as nat))])
                    == spec_render_pair(("U64"@, Json::UInt(*x as nat))));
                lemma_escape_plain("U64"@);
                assert(out@ =~= old(out)@ + spec_render(j));
            }
        },
        crate::data::RegistriesData::String(s) => {
            push_str_chars(out, "{\"String\":");
            push_json_string(out, s.as_str());
            out.push('}');
            proof {
                reveal_strlit("{\"String\":");
                reveal_strlit("String");
                let j = spec_json_of_data(d@);
                assert(spec_render_pairs(seq![("String"@, Json::Str(s@))]) == spec_render_pair(
                    ("String"@, Json::Str(s@)),
                ));
                lemma_escape_plain("String"@);
                assert(out@ =~= old(out)@ + spec_render(j));
            }
        },
        crate::data::RegistriesData::MultiString(texts) => {
            push_str_chars(out, "{\"MultiString\":[");
            let ghost items = texts.deep_view().map_values(|s: Seq<char>| Json::Str(s));
            let n = texts.len();
            let mut k: usize = 0;
            proof {
                assert(items.take(0) =~= Seq::<Json>::empty());
            }
            while k < n
                invariant
                    k <= n,
                    n == texts@.len(),
                    items == texts.deep_view().map_values(|s: Seq<char>| Json::Str(s)),
                    out@ == old(out)@ + "{\"MultiString\":["@ + spec_render_list(
                        items.take(k as int),
                    ),
                decreases n - k,
            {
                if k > 0 {
                    out.push(',');
                }
                push_json_string(out, texts[k].as_str());
                proof {
                    assert(texts@[k as int]@ == texts.deep_view()[k as int]);
                    assert(items[k as int] == Json::Str(texts.deep_view()[k as int]));
                    assert(items.take(k + 1).drop_last() =~= items.take(k as int));
                    assert(items.take(k + 1).last() == items[k as int]);
                    if k == 0 {
                        assert(spec_render_list(items.take(1)) == spec_render(items[0]));
                        assert(out@ =~= old(out)@ + "{\"MultiString\":["@ + spec_render_list(
                            items.take(k + 1),
                        ));
                    } else {
                        assert(spec_render_list(items.take(k + 1)) == spec_render_list(
                            items.take(k as int),
                        ) + seq![','] + spec_render(items[k as int]));
                        assert(out@ =~= old(out)@ + "{\"MultiString\":["@ + spec_render_list(
                            items.take(k + 1),
                        ));
                    }
                }
                k += 1;
            }
            push_str_chars(out, "]}");
            proof {
                reveal_strlit("{\"MultiString\":[");
                reveal_strlit("MultiString");
                reveal_strlit("]}");
                assert(items.take(n as int) =~= items);
                let j = spec_json_of_data(d@);
                assert(spec_render_pairs(seq![("MultiString"@, Json::Arr(items))])
                    == spec_render_pair(("MultiString"@, Json::Arr(items))));
                lemma_escape_plain("MultiString"@);
                assert(out@ =~= old(out)@ + spec_render(j));
            }
        },
        crate::data::RegistriesData::Bytes(bytes) => {
            push_str_chars(out, "{\"Bytes\":[");
            let ghost items = bytes@.map_values(|x: u8| Json::UInt(x as nat));
            let n = bytes.len();
            let mut k: usize = 0;
            proof {
                assert(items.take(0) =~= Seq::<Json>::empty());
            }
            while k < n
                invariant
                    k <= n,
                    n == bytes@.len(),
                    items == bytes@.map_values(|x: u8| Json::UInt(x as nat)),
                    out@ == old(out)@ + "{\"Bytes\":["@ + spec_render_list(items.take(k as int)),
                decreases n - k,
            {
                if k > 0 {
                    out.push(',');
                }
                push_dec(out, bytes[k] as u64);
                proof {
                    assert(items[k as int] == Json::UInt(bytes@[k as int] as nat));
                    assert(items.take(k + 1).drop_last() =~= items.take(k as int));
                    assert(items.take(k + 1).last() == items[k as int]);
                    if k == 0 {
                        assert(spec_render_list(items.take(1)) == spec_render(items[0]));
                    } else {
                        assert(spec_render_list(items.take(k + 1)) == spec_render_list(
                            items.take(k as int),
                        ) + seq![','] + spec_render(items[k as int]));
                    }
                    assert(out@ =~= old(out)@ + "{\"Bytes\":["@ + spec_render_list(
                        items.take(k + 1),
                    ));
                }
                k += 1;
            }
            push_str_chars(out, "]}");
            proof {
                reveal_strlit("{\"Bytes\":[");
                reveal_strlit("Bytes");
                reveal_strlit("]}");
                assert(items.take(n as int) =~= items);
                let j = spec_json_of_data(d@);
                assert(spec_render_pairs(seq![("Bytes"@, Json::Arr(items))]) == spec_render_pair(
                    ("Bytes"@, Json::Arr(items)),
                ));
                lemma_escape_plain("Bytes"@);
                assert(out@ =~= old(out)@ + spec_render(j));
            }
        },
        crate::data::RegistriesData::Raw(t) => {
            push_str_chars(out, "{\"Raw\":");
            push_dec(out, *t as u64);
            out.push('}');
            proof {
                assert((*t as u64) as nat == *t as nat);
                reveal_strlit("{\"Raw\":");
                reveal_strlit("Raw");
                let j = spec_json_of_data(d@);
                assert(spec_render_pairs(seq![("Raw"@, Json::UInt(*t as nat))])
                    == spec_render_pair(("Raw"@, Json::UInt(*t as nat))));
                lemma_escape_plain("Raw"@);
                assert(out@ =~= old(out)@ + spec_render(j));
            }
        },
        crate::data::RegistriesData::Nothing => {
            push_str_chars(out, "\"None\"");
            proof {
                reveal_strlit("\"None\"");
                reveal_strlit("None");
                lemma_escape_plain("None"@);
                assert(out@ =~= old(out)@ + spec_render(spec_json_of_data(d@)));
            }
        },
    }
}

/// Append one `"name":<value>` field of a value map.
fn emit_value_entry(out: &mut Vec<char>, name: &String, d: &crate::data::RegistriesData)
    ensures
        final(out)@ == old(out)@ + spec_render_pair((name@, spec_json_of_data(d@))),
{
    push_json_string(out, name.as_str());
    out.push(':');
    emit_data(out, d);
    proof {
        assert(out@ =~= old(out)@ + spec_render_pair((name@, spec_json_of_data(d@))));
    }
}

/// Append the compact JSON object of one node's payload.
pub(crate) fn emit_item(out: &mut Vec<char>, item: &crate::item::RegistriesItem)
    ensures
        final(out)@ == old(out)@ + spec_render(spec_json_of_item(item@)),
{
    let ghost vpairs = item@.values.map_values(
        |e: (Seq<char>, DataModel)| (e.0, spec_json_of_data(e.1)),
    );
    push_str_chars(out, "{\"key_path\":");
    push_json_string(out, item.key_path().as_str());
    push_str_chars(out, ",\"value_map\":{");
    let ghost base = out@;
    let vm = item.values();
    let n = vm.len();
    let mut k: usize = 0;
    proof {
        assert(vpairs.take(0) =~= Seq::<(Seq<char>, Json)>::empty());
        assert(out@ =~= base + spec_render_pairs(vpairs.take(0)));
    }
    while k < n
        invariant
            k <= n,
            n == vm@.len(),
            vm@ == item@.values,
            vpairs == item@.values.map_values(
                |e: (Seq<char>, DataModel)| (e.0, spec_json_of_data(e.1)),
            ),
            out@ == base + spec_render_pairs(vpairs.take(k as int)),
        decreases n - k,
    {
        if k > 0 {
            out.push(',');
        }
        emit_value_entry(out, vm.name_at(k), vm.value_at(k));
        proof {
            assert(vpairs[k as int] == (item@.values[k as int].0, spec_json_of_data(
                item@.values[k as int].1,
            )));
            assert(vpairs.take(k + 1).drop_last() =~= vpairs.take(k as int));
            assert(vpairs.take(k + 1).last() == vpairs[k as int]);
            if k == 0 {
                assert(spec_render_pairs(vpairs.take(1)) == spec_render_pair(vpairs[0]));
            } else {
                assert(spec_render_pairs(vpairs.take(k + 1)) == spec_render_pairs(
                    vpairs.take(k as int),
                ) + seq![','] + spec_render_pair(vpairs[k as int]));
            }
            assert(out@ =~= base + spec_render_pairs(vpairs.take(k + 1)));
        }
        k += 1;
    }
    push_str_chars(out, "}}");
    proof {
        assert(vpairs.take(n as int) =~= vpairs);
        reveal_strlit("{\"key_path\":");
        reveal_strlit(",\"value_map\":{");
        reveal_strlit("}}");
        reveal_strlit("key_path");
        reveal_strlit("value_map");
        lemma_escape_plain("key_path"@);
        lemma_escape_plain("value_map"@);
        let j = spec_json_of_item(item@);
        let p0 = ("key_path"@, Json::Str(item@.key_path));
        let p1 = ("value_map"@, Json::Obj(vpairs));
        let two = seq![p0, p1];
        assert(two.drop_last() =~= seq![p0]);
        assert(two.last() == p1);
        assert(spec_render_pairs(seq![p0]) == spec_render_pair(p0));
        assert(spec_render_pairs(two) == spec_render_pair(p0) + seq![','] + spec_render_pair(p1));
        assert(out@ =~= old(out)@ + spec_render(j));
    }
}

/// Append the compact JSON object of one node and its whole subtree.
fn emit_node(t: &RegistriesTree, id: NodeId, out: &mut Vec<char>)
    requires
        crate::arena::store_wf(t.store()),
        0 <= id@ < t.store().len(),
    ensures
        final(out)@ == old(out)@ + spec_render(spec_json_of_node(t.store(), id@)),
    decreases t.store().len() - id@,
{
    let ghost v = t.store();
    push_str_chars(out, "{\"data\":");
    emit_item(out, t.node(id));
    push_str_chars(out, ",\"children\":[");
    let ghost base = out@;
    let kids = t.children(id);
    let ghost kj = spec_json_of_kids(v, v[id@].children, id@);
    proof {
        lemma_kids_map(v, v[id@].children, id@);
        assert(kj.len() == kids@.len());
        assert(kj.take(0) =~= Seq::<Json>::empty());
        assert(out@ =~= base + spec_render_list(kj.take(0)));
    }
    let n = kids.len();
    let mut k: usize = 0;
    while k < n
        invariant
            k <= n,
            n == kids@.len(),
            crate::arena::store_wf(t.store()),
            0 <= id@ < t.store().len(),
            v == t.store(),
            kids@.map_values(|x: NodeId| x@) == v[id@].children,
            kj == spec_json_of_kids(v, v[id@].children, id@),
            kj == Seq::new(v[id@].children.len(), |m: int| spec_json_of_node(v, v[id@].children[m])),
            out@ == base + spec_render_list(kj.take(k as int)),
        decreases n - k,
    {
        if k > 0 {
            out.push(',');
        }
        proof {
            assert(kids@[k as int]@ == v[id@].children[k as int]);
            assert(id@ < v[id@].children[k as int] < v.len());
        }
        emit_node(t, kids[k], out);
        proof {
            assert(kj[k as int] == spec_json_of_node(v, v[id@].children[k as int]));
            assert(kj.take(k + 1).drop_last() =~= kj.take(k as int));
            assert(kj.take(k + 1).last() == kj[k as int]);
            if k == 0 {
                assert(spec_render_list(kj.take(1)) == spec_render(kj[0]));
            } else {
                assert(spec_render_list(kj.take(k + 1)) == spec_render_list(kj.take(k as int))
                    + seq![','] + spec_render(kj[k as int]));
            }
            assert(out@ =~= base + spec_render_list(kj.take(k + 1)));
        }
        k += 1;
    }
    push_str_chars(out, "]}");
    proof {
        assert(kj.take(n as int) =~= kj);
        reveal_strlit("{\"data\":");
        reveal_strlit(",\"children\":[");
        reveal_strlit("]}");
        reveal_strlit("data");
        reveal_strlit("children");
        lemma_escape_plain("data"@);
        lemma_escape_plain("children"@);
        let j = spec_json_of_node(v, id@);
        let p0 = ("data"@, spec_json_of_item(v[id@].item));
        let p1 = ("children"@, Json::Arr(kj));
        let two = seq![p0, p1];
        assert(two.drop_last() =~= seq![p0]);
        assert(two.last() == p1);
        assert(spec_render_pairs(seq![p0]) == spec_render_pair(p0));
        assert(spec_render_pairs(two) == spec_render_pair(p0) + seq![','] + spec_render_pair(p1));
        assert(out@ =~= old(out)@ + spec_render(j));
    }
}

impl RegistriesTree {
    /// The compact JSON text of the whole tree: depth-first, child
    /// insertion order kept, `data` before `children`, value-map
    /// entries in their stored order.
    pub fn to_json(&self) -> (r: String)
        requires
            self.wf(),
        ensures
            r@ == spec_to_json(self),
    {
        let mut out: Vec<char> = Vec::new();
        emit_node(self, self.root(), &mut out);
        proof {
            assert(out@ =~= spec_to_json(self));
        }
        crate::text::chars_to_string(&out)
    }
}

/// Two spaces of indentation per depth level.
pub open spec fn spec_indent(d: int) -> Seq<char>
    decreases d,
{
    if d <= 0 {
        Seq::empty()
    } else {
        spec_indent(d - 1) + seq![' ', ' ']
    }
}

/// The pretty rendering of a JSON value at a depth: the same value as
/// the compact rendering, with newlines and indentation added.
pub open spec fn spec_render_pretty(j: Json, d: int) -> Seq<char>
    decreases j, 1int, 0int,
{
    match j {
        Json::Str(s) => seq!['"'] + spec_escape(s) + seq!['"'],
        Json::UInt(n) => spec_dec(n),
        Json::Arr(items) => {
            if items.len() == 0 {
                seq!['[', ']']
            } else {
                seq!['[', '\n'] + spec_render_pretty_list(items, d + 1) + seq!['\n']
                    + spec_indent(d) + seq![']']
            }
        },
        Json::Obj(pairs) => {
            if pairs.len() == 0 {
                seq!['{', '}']
            } else {
                seq!['{', '\n'] + spec_render_pretty_pairs(pairs, d + 1) + seq!['\n']
                    + spec_indent(d) + seq!['}']
            }
        },
    }
}

/// The pretty renderings of an array's items, one line each.
pub open spec fn spec_render_pretty_list(items: Seq<Json>, d: int) -> Seq<char>
    decreases items, 0int, items.len(),
{
    if items.len() == 0 {
        Seq::empty()
    } else if items.len() == 1 {
        spec_indent(d) + spec_render_pretty(items[0], d)
    } else {
        spec_render_pretty_list(items.drop_last(), d) + seq![',', '\n'] + spec_indent(d)
            + spec_render_pretty(items.last(), d)
    }
}

/// The pretty renderings of an object's fields, one line each.
pub open spec fn spec_render_pretty_pairs(pairs: Seq<(Seq<char>, Json)>, d: int) -> Seq<char>
    decreases pairs, 0int, pairs.len(),
{
    if pairs.len() == 0 {
        Seq::empty()
    } else if pairs.len() == 1 {
        spec_render_pretty_pair(pairs[0], d)
    } else {
        spec_render_pretty_pairs(pairs.drop_last(), d) + seq![',', '\n']
            + spec_render_pretty_pair(pairs.last(), d)
    }
}

/// One indented `"key": value` field.
pub open spec fn spec_render_pretty_pair(pair: (Seq<char>, Json), d: int) -> Seq<char>
    decreases pair, 1int, 0int,
{
    spec_indent(d) + seq!['"'] + spec_escape(pair.0) + seq!['"', ':', ' '] + spec_render_pretty(
        pair.1,
        d,
    )
}

/// The pretty JSON text of a whole tree.
pub open spec fn spec_to_pretty_json(t: &RegistriesTree) -> Seq<char> {
    spec_render_pretty(spec_json_of_node(t.store(), t.root_id()), 0)
}

/// Append the indentation of a depth.
pub(crate) fn push_indent(out: &mut Vec<char>, d: usize)
    ensures
        final(out)@ == old(out)@ + spec_indent(d as int),
{
    let mut i: usize = 0;
    proof {
        assert(out@ =~= old(out)@ + spec_indent(0));
    }
    while i < d
        invariant
            i <= d,
            out@ == old(out)@ + spec_indent(i as int),
        decreases d - i,
    {
        out.push(' ');
        out.push(' ');
        proof {
            assert(out@ =~= old(out)@ + spec_indent(i + 1));
        }
        i += 1;
    }
}

/// Append the pretty JSON value of one decoded store value.
/// Append one pretty `{\n  "tag": <number>\n}` object.
fn emit_tagged_num_pretty(out: &mut Vec<char>, tag: &str, n: u64, depth: usize)
    requires
        depth < usize::MAX - 1,
        spec_escape(tag@) == tag@,
    ensures
        final(out)@ == old(out)@ + spec_render_pretty(
            Json::Obj(seq![(tag@, Json::UInt(n as nat))]),
            depth as int,
        ),
{
    push_str_chars(out, "{\n");
    push_indent(out, depth + 1);
    out.push('"');
    push_str_chars(out, tag);
    push_str_chars(out, "\": ");
    push_dec(out, n);
    out.push('\n');
    push_indent(out, depth);
    out.push('}');
    proof {
        reveal_strlit("{\n");
        reveal_strlit("\": ");
        let pr = (tag@, Json::UInt(n as nat));
        assert(spec_render_pretty_pairs(seq![pr], depth + 1) == spec_render_pretty_pair(
            pr,
            depth + 1,
        ));
        assert(out@ =~= old(out)@ + spec_render_pretty(
            Json::Obj(seq![pr]),
            depth as int,
        ));
    }
}

/// Append one pretty `{\n  "tag": "text"\n}` object.
fn emit_tagged_str_pretty(out: &mut Vec<char>, tag: &str, text: &str, depth: usize)
    requires
        depth < usize::MAX - 1,
        spec_escape(tag@) == tag@,
    ensures
        final(out)@ == old(out)@ + spec_render_pretty(
            Json::Obj(seq![(tag@, Json::Str(text@))]),
            depth as int,
        ),
{
    push_str_chars(out, "{\n");
    push_indent(out, depth + 1);
    out.push('"');
    push_str_chars(out, tag);
    push_str_chars(out, "\": ");
    push_json_string(out, text);
    out.push('\n');
    push_indent(out, depth);
    out.push('}');
    proof {
        reveal_strlit("{\n");
        reveal_strlit("\": ");
        let pr = (tag@, Json::Str(text@));
        assert(spec_render_pretty_pairs(seq![pr], depth + 1) == spec_render_pretty_pair(
            pr,
            depth + 1,
        ));
        assert(out@ =~= old(out)@ + spec_render_pretty(
            Json::Obj(seq![pr]),
            depth as int,
        ));
    }
}

/// Append a pretty array of JSON strings.
fn emit_str_arr_pretty(out: &mut Vec<char>, texts: &Vec<String>, depth: usize)
    requires
        depth < usize::MAX,
    ensures
        final(out)@ == old(out)@ + spec_render_pretty(
            Json::Arr(texts.deep_view().map_values(|s: Seq<char>| Json::Str(s))),
            depth as int,
        ),
{
    let ghost items = texts.deep_view().map_values(|s: Seq<char>| Json::Str(s));
    let n = texts.len();
    if n == 0 {
        push_str_chars(out, "[]");
        proof {
            reveal_strlit("[]");
            assert(items.len() == 0);
            assert(out@ =~= old(out)@ + spec_render_pretty(Json::Arr(items), depth as int));
        }
        return ;
    }
    push_str_chars(out, "[\n");
    let ghost base = out@;
    let mut k: usize = 0;
    proof {
        assert(out@ =~= base + spec_render_pretty_list(items.take(0), depth + 1));
    }
    while k < n
        invariant
            k <= n,
            n == texts@.len(),
            n >= 1,
            depth < usize::MAX,
            items == texts.deep_view().map_values(|s: Seq<char>| Json::Str(s)),
            out@ == base + spec_render_pretty_list(items.take(k as int), depth + 1),
        decreases n - k,
    {
        if k > 0 {
            out.push(',');
            out.push('\n');
        }
        push_indent(out, depth + 1);
        push_json_string(out, texts[k].as_str());
        proof {
            assert(texts@[k as int]@ == texts.deep_view()[k as int]);
            assert(items[k as int] == Json::Str(texts.deep_view()[k as int]));
            assert(items.take(k + 1).drop_last() =~= items.take(k as int));
            assert(items.take(k + 1).last() == items[k as int]);
            assert(spec_render_pretty(items[k as int], depth + 1) == spec_render(items[k as int]));
            if k == 0 {
                assert(spec_render_pretty_list(items.take(1), depth + 1) == spec_indent(depth + 1)
                    + spec_render_pretty(items[0], depth + 1));
            } else {
                assert(spec_render_pretty_list(items.take(k + 1), depth + 1)
                    == spec_render_pretty_list(items.take(k as int), depth + 1) + seq![',', '\n']
                    + spec_indent(depth + 1) + spec_render_pretty(items[k as int], depth + 1));
            }
            assert(out@ =~= base + spec_render_pretty_list(items.take(k + 1), depth + 1));
        }
        k += 1;
    }
    out.push('\n');
    push_indent(out, depth);
    out.push(']');
    proof {
        reveal_strlit("[\n");
        assert(items.take(n as int) =~= items);
        assert(out@ =~= old(out)@ + spec_render_pretty(Json::Arr(items), depth as int));
    }
}

/// Append a pretty array of byte values.
fn emit_byte_arr_pretty(out: &mut Vec<char>, bytes: &Vec<u8>, depth: usize)
    requires
        depth < usize::MAX,
    ensures
        final(out)@ == old(out)@ + spec_render_pretty(
            Json::Arr(bytes@.map_values(|x: u8| Json::UInt(x as nat))),
            depth as int,
        ),
{
    let ghost items = bytes@.map_values(|x: u8| Json::UInt(x as nat));
    let n = bytes.len();
    if n == 0 {
        push_str_chars(out, "[]");
        proof {
            reveal_strlit("[]");
            assert(items.len() == 0);
            assert(out@ =~= old(out)@ + spec_render_pretty(Json::Arr(items), depth as int));
        }
        return ;
    }
    push_str_chars(out, "[\n");
    let ghost base = out@;
    let mut k: usize = 0;
    proof {
        assert(out@ =~= base + spec_render_pretty_list(items.take(0), depth + 1));
    }
    while k < n
        invariant
            k <= n,
            n == bytes@.len(),
            n >= 1,
            depth < usize::MAX,
            items == bytes@.map_values(|x: u8| Json::UInt(x as nat)),
            out@ == base + spec_render_pretty_list(items.take(k as int), depth + 1),
        decreases n - k,
    {
        if k > 0 {
            out.push(',');
            out.push('\n');
        }
        push_indent(out, depth + 1);
        push_dec(out, bytes[k] as u64);
        proof {
            assert(items[k as int] == Json::UInt(bytes@[k as int] as nat));
            assert(items.take(k + 1).drop_last() =~= items.take(k as int));
            assert(items.take(k + 1).last() == items[k as int]);
            assert(spec_render_pretty(items[k as int], depth + 1) == spec_render(items[k as int]));
            if k == 0 {
                assert(spec_render_pretty_list(items.take(1), depth + 1) == spec_indent(depth + 1)
                    + spec_render_pretty(items[0], depth + 1));
            } else {
                assert(spec_render_pretty_list(items.take(k + 1), depth + 1)
                    == spec_render_pretty_list(items.take(k as int), depth + 1) + seq![',', '\n']
                    + spec_indent(depth + 1) + spec_render_pretty(items[k as int], depth + 1));
            }
            assert(out@ =~= base + spec_render_pretty_list(items.take(k + 1), depth + 1));
        }
        k += 1;
    }
    out.push('\n');
    push_indent(out, depth);
    out.push(']');
    proof {
        reveal_strlit("[\n");
        assert(items.take(n as int) =~= items);
        assert(out@ =~= old(out)@ + spec_render_pretty(Json::Arr(items), depth as int));
    }
}

/// Append one pretty `{\n  "tag": [...]\n}` object around an array.
#[verifier::rlimit(60)]
#[verifier::spinoff_prover]
pub(crate) fn emit_data_pretty(out: &mut Vec<char>, d: &crate::data::RegistriesData, depth: usize)
    requires
        depth < usize::MAX - 1,
    ensures
        final(out)@ == old(out)@ + spec_render_pretty(spec_json_of_data(d@), depth as int),
{
    match d {
        crate::data::RegistriesData::U32(x) => {
            proof {
                reveal_strlit("U32");
                lemma_escape_plain("U32"@);
                assert((*x as u64) as nat == *x as nat);
            }
            emit_tagged_num_pretty(out, "U32", *x as u64, depth);
        },
        crate::data::RegistriesData::U64(x) => {
            proof {
                reveal_strlit("U64");
                lemma_escape_plain("U64"@);
            }
            emit_tagged_num_pretty(out, "U64", *x, depth);
        },
        crate::data::RegistriesData::String(s) => {
            proof {
                reveal_strlit("String");
                lemma_escape_plain("String"@);
            }
            emit_tagged_str_pretty(out, "String", s.as_str(), depth);
        },
        crate::data::RegistriesData::MultiString(texts) => {
            push_str_chars(out, "{\n");
            push_indent(out, depth + 1);
            push_str_chars(out, "\"MultiString\": ");
            emit_str_arr_pretty(out, texts, depth + 1);
            out.push('\n');
            push_indent(out, depth);
            out.push('}');
            proof {
                reveal_strlit("{\n");
                reveal_strlit("\"MultiString\": ");
                reveal_strlit("MultiString");
                lemma_escape_plain("MultiString"@);
                let items = texts.deep_view().map_values(|s: Seq<char>| Json::Str(s));
                let pr = ("MultiString"@, Json::Arr(items));
                assert(spec_render_pretty_pairs(seq![pr], depth + 1) == spec_render_pretty_pair(
                    pr,
                    depth + 1,
                ));
                assert(out@ =~= old(out)@ + spec_render_pretty(spec_json_of_data(d@), depth as int));
            }
        },
        crate::data::RegistriesData::Bytes(bytes) => {
            push_str_chars(out, "{\n");
            push_indent(out, depth + 1);
            push_str_chars(out, "\"Bytes\": ");
            emit_byte_arr_pretty(out, bytes, depth + 1);
            out.push('\n');
            push_indent(out, depth);
            out.push('}');
            proof {
                reveal_strlit("{\n");
                reveal_strlit("\"Bytes\": ");
                reveal_strlit("Bytes");
                lemma_escape_plain("Bytes"@);
                let items = bytes@.map_values(|x: u8| Json::UInt(x as nat));
                let pr = ("Bytes"@, Json::Arr(items));
                assert(spec_render_pretty_pairs(seq![pr], depth + 1) == spec_render_pretty_pair(
                    pr,
                    depth + 1,
                ));
                assert(out@ =~= old(out)@ + spec_render_pretty(spec_json_of_data(d@), depth as int));
            }
        },
        crate::data::RegistriesData::Raw(t) => {
            proof {
                reveal_strlit("Raw");
                lemma_escape_plain("Raw"@);
                assert((*t as u64) as nat == *t as nat);
            }
            emit_tagged_num_pretty(out, "Raw", *t as u64, depth);
        },
        crate::data::RegistriesData::Nothing => {
            push_str_chars(out, "\"None\"");
            proof {
                reveal_strlit("\"None\"");
                reveal_strlit("None");
                lemma_escape_plain("None"@);
                assert(out@ =~= old(out)@ + spec_render_pretty(
                    spec_json_of_data(d@),
                    depth as int,
                ));
            }
        },
    }
}

/// Append one pretty indented `"name": <value>` field of a value map.
fn emit_value_entry_pretty(
    out: &mut Vec<char>,
    name: &String,
    d: &crate::data::RegistriesData,
    depth: usize,
)
    requires
        depth < usize::MAX - 1,
    ensures
        final(out)@ == old(out)@ + spec_render_pretty_pair(
            (name@, spec_json_of_data(d@)),
            depth as int,
        ),
{
    push_indent(out, depth);
    push_json_string(out, name.as_str());
    out.push(':');
    out.push(' ');
    emit_data_pretty(out, d, depth);
    proof {
        assert(out@ =~= old(out)@ + spec_render_pretty_pair(
            (name@, spec_json_of_data(d@)),
            depth as int,
        ));
    }
}

/// Append the pretty JSON object of a whole value map.
#[verifier::rlimit(60)]
fn emit_value_map_pretty(out: &mut Vec<char>, vm: &crate::item::ValueMap, depth: usize)
    requires
        depth + 2 < usize::MAX,
    ensures
        final(out)@ == old(out)@ + spec_render_pretty(
            Json::Obj(
                vm@.map_values(|e: (Seq<char>, DataModel)| (e.0, spec_json_of_data(e.1))),
            ),
            depth as int,
        ),
{
    let ghost vpairs = vm@.map_values(|e: (Seq<char>, DataModel)| (e.0, spec_json_of_data(e.1)));
    let n = vm.len();
    if n == 0 {
        push_str_chars(out, "{}");
        proof {
            reveal_strlit("{}");
            assert(vpairs.len() == 0);
            assert(out@ =~= old(out)@ + spec_render_pretty(Json::Obj(vpairs), depth as int));
        }
        return ;
    }
    push_str_chars(out, "{\n");
    let ghost base = out@;
    let mut k: usize = 0;
    proof {
        assert(out@ =~= base + spec_render_pretty_pairs(vpairs.take(0), depth + 1));
    }
    while k < n
        invariant
            k <= n,
            n >= 1,
            n == vm@.len(),
            depth + 2 < usize::MAX,
            vpairs == vm@.map_values(|e: (Seq<char>, DataModel)| (e.0, spec_json_of_data(e.1))),
            out@ == base + spec_render_pretty_pairs(vpairs.take(k as int), depth + 1),
        decreases n - k,
    {
        if k > 0 {
            out.push(',');
            out.push('\n');
        }
        emit_value_entry_pretty(out, vm.name_at(k), vm.value_at(k), depth + 1);
        proof {
            assert(vpairs[k as int] == (vm@[k as int].0, spec_json_of_data(vm@[k as int].1)));
            assert(vpairs.take(k + 1).drop_last() =~= vpairs.take(k as int));
            assert(vpairs.take(k + 1).last() == vpairs[k as int]);
            if k == 0 {
                assert(spec_render_pretty_pairs(vpairs.take(1), depth + 1)
                    == spec_render_pretty_pair(vpairs[0], depth + 1));
            } else {
                assert(spec_render_pretty_pairs(vpairs.take(k + 1), depth + 1)
                    == spec_render_pretty_pairs(vpairs.take(k as int), depth + 1) + seq![
                    ',',
                    '\n',
                ] + spec_render_pretty_pair(vpairs[k as int], depth + 1));
            }
            assert(out@ =~= base + spec_render_pretty_pairs(vpairs.take(k + 1), depth + 1));
        }
        k += 1;
    }
    out.push('\n');
    push_indent(out, depth);
    out.push('}');
    proof {
        reveal_strlit("{\n");
        assert(vpairs.take(n as int) =~= vpairs);
        assert(out@ =~= old(out)@ + spec_render_pretty(Json::Obj(vpairs), depth as int));
    }
}

/// Append the pretty JSON object of one node's payload.
#[verifier::rlimit(60)]
#[verifier::spinoff_prover]
pub(crate) fn emit_item_pretty(out: &mut Vec<char>, item: &crate::item::RegistriesItem, depth: usize)
    requires
        depth + 3 < usize::MAX,
    ensures
        final(out)@ == old(out)@ + spec_render_pretty(
            spec_json_of_item(item@),
            depth as int,
        ),
{
    let ghost vpairs = item@.values.map_values(
        |e: (Seq<char>, DataModel)| (e.0, spec_json_of_data(e.1)),
    );
    push_str_chars(out, "{\n");
    push_indent(out, depth + 1);
    push_str_chars(out, "\"key_path\": ");
    push_json_string(out, item.key_path().as_str());
    push_str_chars(out, ",\n");
    push_indent(out, depth + 1);
    push_str_chars(out, "\"value_map\": ");
    emit_value_map_pretty(out, item.values(), depth + 1);
    out.push('\n');
    push_indent(out, depth);
    out.push('}');
    proof {
        reveal_strlit("{\n");
        reveal_strlit(",\n");
        reveal_strlit("\"key_path\": ");
        reveal_strlit("\"value_map\": ");
        reveal_strlit("key_path");
        reveal_strlit("value_map");
        lemma_escape_plain("key_path"@);
        lemma_escape_plain("value_map"@);
        let j = spec_json_of_item(item@);
        let p0 = ("key_path"@, Json::Str(item@.key_path));
        let p1 = ("value_map"@, Json::Obj(vpairs));
        let two = seq![p0, p1];
        assert(two.drop_last() =~= seq![p0]);
        assert(two.last() == p1);
        assert(spec_render_pretty_pairs(seq![p0], depth + 1) == spec_render_pretty_pair(
            p0,
            depth + 1,
        ));
        assert(spec_render_pretty_pairs(two, depth + 1) == spec_render_pretty_pair(p0, depth + 1)
            + seq![',', '\n'] + spec_render_pretty_pair(p1, depth + 1));
        assert(out@ =~= old(out)@ + spec_render_pretty(j, depth as int));
    }
}

/// Append the pretty JSON array of a node's children.
#[verifier::rlimit(60)]
#[verifier::spinoff_prover]
fn emit_children_pretty(t: &RegistriesTree, id: NodeId, depth: usize, out: &mut Vec<char>)
    requires
        crate::arena::store_wf(t.store()),
        0 <= id@ < t.store().len(),
        depth as int <= 2 * id@ + 1,
        2 * t.store().len() + 4 < usize::MAX,
    ensures
        final(out)@ == old(out)@ + spec_render_pretty(
            Json::Arr(spec_json_of_kids(t.store(), t.store()[id@].children, id@)),
            depth as int,
        ),
    decreases t.store().len() - id@, 0int,
{
    let ghost v = t.store();
    let kids = t.children(id);
    let ghost kj = spec_json_of_kids(v, v[id@].children, id@);
    proof {
        lemma_kids_map(v, v[id@].children, id@);
        assert(kj.len() == kids@.len());
    }
    let n = kids.len();
    if n == 0 {
        push_str_chars(out, "[]");
        proof {
            reveal_strlit("[]");
            assert(out@ =~= old(out)@ + spec_render_pretty(Json::Arr(kj), depth as int));
        }
        return ;
    }
    push_str_chars(out, "[\n");
    let ghost base = out@;
    let mut k: usize = 0;
    proof {
        assert(out@ =~= base + spec_render_pretty_list(kj.take(0), depth + 1));
    }
    while k < n
        invariant
            k <= n,
            n >= 1,
            n == kids@.len(),
            crate::arena::store_wf(t.store()),
            0 <= id@ < t.store().len(),
            depth as int <= 2 * id@ + 1,
            2 * t.store().len() + 4 < usize::MAX,
            v == t.store(),
            kids@.map_values(|x: NodeId| x@) == v[id@].children,
            kj == spec_json_of_kids(v, v[id@].children, id@),
            kj == Seq::new(
                v[id@].children.len(),
                |m: int| spec_json_of_node(v, v[id@].children[m]),
            ),
            out@ == base + spec_render_pretty_list(kj.take(k as int), depth + 1),
        decreases n - k,
    {
        if k > 0 {
            out.push(',');
            out.push('\n');
        }
        push_indent(out, depth + 1);
        proof {
            assert(kids@[k as int]@ == v[id@].children[k as int]);
            assert(id@ < v[id@].children[k as int] < v.len());
        }
        emit_node_pretty(t, kids[k], depth + 1, out);
        proof {
            assert(kj[k as int] == spec_json_of_node(v, v[id@].children[k as int]));
            assert(kj.take(k + 1).drop_last() =~= kj.take(k as int));
            assert(kj.take(k + 1).last() == kj[k as int]);
            if k == 0 {
                assert(spec_render_pretty_list(kj.take(1), depth + 1) == spec_indent(depth + 1)
                    + spec_render_pretty(kj[0], depth + 1));
            } else {
                assert(spec_render_pretty_list(kj.take(k + 1), depth + 1)
                    == spec_render_pretty_list(kj.take(k as int), depth + 1) + seq![',', '\n']
                    + spec_indent(depth + 1) + spec_render_pretty(kj[k as int], depth + 1));
            }
            assert(out@ =~= base + spec_render_pretty_list(kj.take(k + 1), depth + 1));
        }
        k += 1;
    }
    out.push('\n');
    push_indent(out, depth);
    out.push(']');
    proof {
        reveal_strlit("[\n");
        assert(kj.take(n as int) =~= kj);
        assert(out@ =~= old(out)@ + spec_render_pretty(Json::Arr(kj), depth as int));
    }
}

/// Append the pretty JSON object of one node and its whole subtree.
#[verifier::rlimit(60)]
#[verifier::spinoff_prover]
fn emit_node_pretty(t: &RegistriesTree, id: NodeId, depth: usize, out: &mut Vec<char>)
    requires
        crate::arena::store_wf(t.store()),
        0 <= id@ < t.store().len(),
        depth as int <= 2 * id@,
        2 * t.store().len() + 4 < usize::MAX,
    ensures
        final(out)@ == old(out)@ + spec_render_pretty(
            spec_json_of_node(t.store(), id@),
            depth as int,
        ),
    decreases t.store().len() - id@, 1int,
{
    let ghost v = t.store();
    push_str_chars(out, "{\n");
    push_indent(out, depth + 1);
    push_str_chars(out, "\"data\": ");
    emit_item_pretty(out, t.node(id), depth + 1);
    push_str_chars(out, ",\n");
    push_indent(out, depth + 1);
    push_str_chars(out, "\"children\": ");
    emit_children_pretty(t, id, depth + 1, out);
    out.push('\n');
    push_indent(out, depth);
    out.push('}');
    proof {
        let kj = spec_json_of_kids(v, v[id@].children, id@);
        reveal_strlit("{\n");
        reveal_strlit(",\n");
        reveal_strlit("\"data\": ");
        reveal_strlit("\"children\": ");
        reveal_strlit("data");
        reveal_strlit("children");
        lemma_escape_plain("data"@);
        lemma_escape_plain("children"@);
        let j = spec_json_of_node(v, id@);
        let p0 = ("data"@, spec_json_of_item(v[id@].item));
        let p1 = ("children"@, Json::Arr(kj));
        let two = seq![p0, p1];
        assert(two.drop_last() =~= seq![p0]);
        assert(two.last() == p1);
        assert(spec_render_pretty_pairs(seq![p0], depth + 1) == spec_render_pretty_pair(
            p0,
            depth + 1,
        ));
        assert(spec_render_pretty_pairs(two, depth + 1) == spec_render_pretty_pair(p0, depth + 1)
            + seq![',', '\n'] + spec_render_pretty_pair(p1, depth + 1));
        assert(out@ =~= old(out)@ + spec_render_pretty(j, depth as int));
    }
}

impl RegistriesTree {
    /// The pretty JSON text of the whole tree: the same structure as
    /// `to_json`, human-formatted with two-space indentation.
    pub fn to_pretty_json(&self) -> (r: String)
        requires
            self.wf(),
            2 * self.store().len() + 4 < usize::MAX,
        ensures
            r@ == spec_to_pretty_json(self),
    {
        let mut out: Vec<char> = Vec::new();
        emit_node_pretty(self, self.root(), 0, &mut out);
        proof {
            assert(out@ =~= spec_to_pretty_json(self));
        }
        crate::text::chars_to_string(&out)
    }
}

/// An upper-case hexadecimal digit for a value below 16.
pub open spec fn spec_hex_upper_digit(n: int) -> char {
    if n < 10 {
        (48 + n) as char
    } else {
        (55 + n) as char
    }
}

/// One byte as `0xHH`.
pub open spec fn spec_hex_byte(b: u8) -> Seq<char> {
    seq!['0', 'x', spec_hex_upper_digit(b as int / 16), spec_hex_upper_digit(b as int % 16)]
}

/// Up to the first ten bytes as `0xHH`, comma-joined, with an ellipsis
/// when more bytes were left out of the display; the underlying value
/// keeps them all.
pub open spec fn spec_bytes_summary(b: Seq<u8>) -> Seq<char> {
    let shown = if b.len() <= 10 {
        b
    } else {
        b.take(10)
    };
    spec_hex_list(shown) + if b.len() > 10 {
        seq!['.', '.', '.']
    } else {
        Seq::empty()
    }
}

/// Bytes as `0xHH`, comma-joined.
pub open spec fn spec_hex_list(b: Seq<u8>) -> Seq<char>
    decreases b.len(),
{
    if b.len() == 0 {
        Seq::empty()
    } else if b.len() == 1 {
        spec_hex_byte(b[0])
    } else {
        spec_hex_list(b.drop_last()) + seq![','] + spec_hex_byte(b.last())
    }
}

/// Quoted texts, comma-joined.
pub open spec fn spec_quoted_list(v: Seq<Seq<char>>) -> Seq<char>
    decreases v.len(),
{
    if v.len() == 0 {
        Seq::empty()
    } else if v.len() == 1 {
        seq!['"'] + spec_escape(v[0]) + seq!['"']
    } else {
        spec_quoted_list(v.drop_last()) + seq![',', ' '] + seq!['"'] + spec_escape(v.last())
            + seq!['"']
    }
}

/// The type-tagged text rendering of one decoded value.
pub open spec fn spec_text_of_data(d: DataModel) -> Seq<char> {
    match d {
        DataModel::U32(x) => "U32("@ + spec_dec(x as nat) + seq![')'],
        DataModel::U64(x) => "U64("@ + spec_dec(x as nat) + seq![')'],
        DataModel::Str(s) => "String(\""@ + spec_escape(s) + seq!['"', ')'],
        DataModel::MultiStr(v) => "MultiString(["@ + spec_quoted_list(v) + seq![']', ')'],
        DataModel::Bytes(b) => "Bytes("@ + spec_bytes_summary(b) + seq![')'],
        DataModel::Raw(t) => "Raw("@ + spec_dec(t as nat) + seq![')'],
        DataModel::Nothing => "None"@,
    }
}

/// The indentation of the outline: one tab per depth level.
pub open spec fn spec_tabs(d: int) -> Seq<char>
    decreases d,
{
    if d <= 0 {
        Seq::empty()
    } else {
        spec_tabs(d - 1) + seq!['\t']
    }
}

/// One node's lines of the outline: its key line, one line per value,
/// then its children one level deeper.
pub open spec fn spec_text_of_node(v: Seq<NodeModel>, i: int, d: int) -> Seq<char>
    decreases v.len() - i, 1int,
{
    if 0 <= i < v.len() {
        spec_tabs(d) + "key_path: "@ + v[i].item.key_path + seq!['\n'] + spec_value_lines(
            v[i].item.values,
            d,
        ) + spec_text_of_kids(v, v[i].children, i, d)
    } else {
        Seq::empty()
    }
}

/// The value lines of one node.
pub open spec fn spec_value_lines(values: Seq<(Seq<char>, DataModel)>, d: int) -> Seq<char>
    decreases values.len(),
{
    if values.len() == 0 {
        Seq::empty()
    } else {
        spec_value_lines(values.drop_last(), d) + spec_tabs(d) + "\t- "@ + values.last().0
            + ":\t"@ + spec_text_of_data(values.last().1) + seq!['\n']
    }
}

/// The outline lines of a run of child nodes, one level deeper.
pub open spec fn spec_text_of_kids(v: Seq<NodeModel>, ids: Seq<int>, floor: int, d: int) -> Seq<
    char,
>
    decreases v.len() - floor, 0int, ids.len(),
{
    if ids.len() == 0 {
        Seq::empty()
    } else if floor < ids[0] < v.len() {
        spec_text_of_node(v, ids[0], d + 1) + spec_text_of_kids(v, ids.drop_first(), floor, d)
    } else {
        spec_text_of_kids(v, ids.drop_first(), floor, d)
    }
}

/// The whole outline of a tree.
pub open spec fn spec_to_pretty_tree(t: &RegistriesTree) -> Seq<char> {
    spec_text_of_node(t.store(), t.root_id(), 0)
}

/// Append one tab per depth level.
fn push_tabs(out: &mut Vec<char>, d: usize)
    ensures
        final(out)@ == old(out)@ + spec_tabs(d as int),
{
    let mut i: usize = 0;
    proof {
        assert(out@ =~= old(out)@ + spec_tabs(0));
    }
    while i < d
        invariant
            i <= d,
            out@ == old(out)@ + spec_tabs(i as int),
        decreases d - i,
    {
        out.push('\t');
        proof {
            assert(out@ =~= old(out)@ + spec_tabs(i + 1));
        }
        i += 1;
    }
}

/// Append one byte as `0xHH`.
fn push_hex_byte(out: &mut Vec<char>, b: u8)
    ensures
        final(out)@ == old(out)@ + spec_hex_byte(b),
{
    out.push('0');
    out.push('x');
    let hi: u32 = (b as u32) / 16;
    let lo: u32 = (b as u32) % 16;
    let hic: char = if hi < 10 {
        crate::text::char_from_u32(48 + hi)
    } else {
        crate::text::char_from_u32(55 + hi)
    };
    let loc: char = if lo < 10 {
        crate::text::char_from_u32(48 + lo)
    } else {
        crate::text::char_from_u32(55 + lo)
    };
    out.push(hic);
    out.push(loc);
    proof {
        assert(hi as int == b as int / 16);
        assert(lo as int == b as int % 16);
        assert(hic == spec_hex_upper_digit(b as int / 16));
        assert(loc == spec_hex_upper_digit(b as int % 16));
        assert(out@ =~= old(out)@ + spec_hex_byte(b));
    }
}

/// Append the type-tagged text rendering of one decoded value.
#[verifier::rlimit(60)]
#[verifier::spinoff_prover]
fn push_data_text(out: &mut Vec<char>, d: &crate::data::RegistriesData)
    ensures
        final(out)@ == old(out)@ + spec_text_of_data(d@),
{
    match d {
        crate::data::RegistriesData::U32(x) => {
            push_str_chars(out, "U32(");
            push_dec(out, *x as u64);
            out.push(')');
            proof {
                assert((*x as u64) as nat == *x as nat);
                assert(out@ =~= old(out)@ + spec_text_of_data(d@));
            }
        },
        crate::data::RegistriesData::U64(x) => {
            push_str_chars(out, "U64(");
            push_dec(out, *x);
            out.push(')');
            proof {
                assert(out@ =~= old(out)@ + spec_text_of_data(d@));
            }
        },
        crate::data::RegistriesData::String(s) => {
            push_str_chars(out, "String(\"");
            push_escaped(out, s.as_str());
            out.push('"');
            out.push(')');
            proof {
                assert(out@ =~= old(out)@ + spec_text_of_data(d@));
            }
        },
        crate::data::RegistriesData::MultiString(texts) => {
            push_str_chars(out, "MultiString([");
            let ghost tv = texts.deep_view();
            let n = texts.len();
            let mut k: usize = 0;
            proof {
                assert(tv.take(0) =~= Seq::<Seq<char>>::empty());
                assert(out@ =~= old(out)@ + "MultiString(["@ + spec_quoted_list(tv.take(0)));
            }
            while k < n
                invariant
                    k <= n,
                    n == texts@.len(),
                    tv == texts.deep_view(),
                    out@ == old(out)@ + "MultiString(["@ + spec_quoted_list(tv.take(k as int)),
                decreases n - k,
            {
                if k > 0 {
                    out.push(',');
                    out.push(' ');
                }
                out.push('"');
                push_escaped(out, texts[k].as_str());
                out.push('"');
                proof {
                    assert(texts@[k as int]@ == tv[k as int]);
                    assert(tv.take(k + 1).drop_last() =~= tv.take(k as int));
                    assert(tv.take(k + 1).last() == tv[k as int]);
                    if k == 0 {
                        assert(spec_quoted_list(tv.take(1)) == seq!['"'] + spec_escape(tv[0])
                            + seq!['"']);
                    } else {
                        assert(spec_quoted_list(tv.take(k + 1)) == spec_quoted_list(
                            tv.take(k as int),
                        ) + seq![',', ' '] + seq!['"'] + spec_escape(tv[k as int]) + seq!['"']);
                    }
                    assert(out@ =~= old(out)@ + "MultiString(["@ + spec_quoted_list(
                        tv.take(k + 1),
                    ));
                }
                k += 1;
            }
            out.push(']');
            out.push(')');
            proof {
                assert(tv.take(n as int) =~= tv);
                assert(out@ =~= old(out)@ + spec_text_of_data(d@));
            }
        },
        crate::data::RegistriesData::Bytes(bytes) => {
            push_str_chars(out, "Bytes(");
            let n = bytes.len();
            let shown_count: usize = if n <= 10 {
                n
            } else {
                10
            };
            let ghost shown = if bytes@.len() <= 10 {
                bytes@
            } else {
                bytes@.take(10)
            };
            proof {
                assert(shown =~= bytes@.take(shown_count as int));
            }
            let mut k: usize = 0;
            proof {
                assert(shown.take(0) =~= Seq::<u8>::empty());
                assert(out@ =~= old(out)@ + "Bytes("@ + spec_hex_list(shown.take(0)));
            }
            while k < shown_count
                invariant
                    k <= shown_count,
                    shown_count <= n,
                    n == bytes@.len(),
                    shown == bytes@.take(shown_count as int),
                    out@ == old(out)@ + "Bytes("@ + spec_hex_list(shown.take(k as int)),
                decreases shown_count - k,
            {
                if k > 0 {
                    out.push(',');
                }
                push_hex_byte(out, bytes[k]);
                proof {
                    assert(shown[k as int] == bytes@[k as int]);
                    assert(shown.take(k + 1).drop_last() =~= shown.take(k as int));
                    assert(shown.take(k + 1).last() == shown[k as int]);
                    if k == 0 {
                        assert(spec_hex_list(shown.take(1)) == spec_hex_byte(shown[0]));
                    } else {
                        assert(spec_hex_list(shown.take(k + 1)) == spec_hex_list(
                            shown.take(k as int),
                        ) + seq![','] + spec_hex_byte(shown[k as int]));
                    }
                    assert(out@ =~= old(out)@ + "Bytes("@ + spec_hex_list(shown.take(k + 1)));
                }
                k += 1;
            }
            if n > 10 {
                push_str_chars(out, "...");
            }
            out.push(')');
            proof {
                reveal_strlit("...");
                assert(shown.take(shown_count as int) =~= shown);
                assert(out@ =~= old(out)@ + spec_text_of_data(d@));
            }
        },
        crate::data::RegistriesData::Raw(t) => {
            push_str_chars(out, "Raw(");
            push_dec(out, *t as u64);
            out.push(')');
            proof {
                assert((*t as u64) as nat == *t as nat);
                assert(out@ =~= old(out)@ + spec_text_of_data(d@));
            }
        },
        crate::data::RegistriesData::Nothing => {
            push_str_chars(out, "None");
            proof {
                assert(out@ =~= old(out)@ + spec_text_of_data(d@));
            }
        },
    }
}

/// Append the outline lines of one node and its subtree.
#[verifier::rlimit(60)]
#[verifier::spinoff_prover]
fn emit_node_text(t: &RegistriesTree, id: NodeId, depth: usize, out: &mut Vec<char>)
    requires
        crate::arena::store_wf(t.store()),
        0 <= id@ < t.store().len(),
        t.store().len() <= usize::MAX,
        depth <= id@,
    ensures
        final(out)@ == old(out)@ + spec_text_of_node(t.store(), id@, depth as int),
    decreases t.store().len() - id@,
{
    let ghost v = t.store();
    push_tabs(out, depth);
    push_str_chars(out, "key_path: ");
    let item = t.node(id);
    push_str_chars(out, item.key_path().as_str());
    out.push('\n');
    // one line per value
    let ghost header = out@;
    let vm = item.values();
    let n = vm.len();
    let mut k: usize = 0;
    proof {
        assert(out@ =~= header + spec_value_lines(vm@.take(0), depth as int));
    }
    while k < n
        invariant
            k <= n,
            n == vm@.len(),
            vm@ == t.store()[id@].item.values,
            out@ == header + spec_value_lines(vm@.take(k as int), depth as int),
        decreases n - k,
    {
        push_tabs(out, depth);
        push_str_chars(out, "\t- ");
        push_str_chars(out, vm.name_at(k).as_str());
        push_str_chars(out, ":\t");
        push_data_text(out, vm.value_at(k));
        out.push('\n');
        proof {
            assert(vm@.take(k + 1).drop_last() =~= vm@.take(k as int));
            assert(vm@.take(k + 1).last() == vm@[k as int]);
            assert(out@ =~= header + spec_value_lines(vm@.take(k + 1), depth as int));
        }
        k += 1;
    }
    proof {
        assert(vm@.take(n as int) =~= vm@);
    }
    // the children, one level deeper
    let ghost before_kids = out@;
    let kids = t.children(id);
    let m = kids.len();
    let ghost ids = v[id@].children;
    let mut c: usize = 0;
    while c < m
        invariant
            c <= m,
            m == kids@.len(),
            crate::arena::store_wf(t.store()),
            0 <= id@ < t.store().len(),
            t.store().len() <= usize::MAX,
            depth <= id@,
            v == t.store(),
            ids == v[id@].children,
            kids@.map_values(|x: NodeId| x@) == ids,
            out@ + spec_text_kids_partial(v, ids, id@, depth as int, c as int) == before_kids
                + spec_text_kids_partial(v, ids, id@, depth as int, 0),
        decreases m - c,
    {
        proof {
            assert(kids@[c as int]@ == ids[c as int]);
            assert(id@ < ids[c as int] < v.len());
        }
        emit_node_text(t, kids[c], depth + 1, out);
        proof {
            lemma_text_kids_partial_step(v, ids, id@, depth as int, c as int);
            assert(out@ + spec_text_kids_partial(v, ids, id@, depth as int, c + 1) =~= before_kids
                + spec_text_kids_partial(v, ids, id@, depth as int, 0));
        }
        c += 1;
    }
    proof {
        assert(spec_text_kids_partial(v, ids, id@, depth as int, m as int) =~= Seq::<
            char,
        >::empty());
        assert(out@ =~= before_kids + spec_text_kids_partial(v, ids, id@, depth as int, 0));
        lemma_text_kids_partial_all(v, ids, id@, depth as int);
        reveal_strlit("key_path: ");
        reveal_strlit("\t- ");
        reveal_strlit(":\t");
        assert(out@ =~= old(out)@ + spec_text_of_node(v, id@, depth as int));
    }
}

/// The outline of the children from one position on.
pub open spec fn spec_text_kids_partial(
    v: Seq<NodeModel>,
    ids: Seq<int>,
    floor: int,
    d: int,
    from: int,
) -> Seq<char>
    decreases v.len() - floor, 0int, ids.len() - from,
{
    if from < 0 || from >= ids.len() {
        Seq::empty()
    } else if floor < ids[from] < v.len() {
        spec_text_of_node(v, ids[from], d + 1) + spec_text_kids_partial(v, ids, floor, d, from + 1)
    } else {
        spec_text_kids_partial(v, ids, floor, d, from + 1)
    }
}

/// One step of the partial-children outline.
proof fn lemma_text_kids_partial_step(v: Seq<NodeModel>, ids: Seq<int>, floor: int, d: int, c: int)
    requires
        0 <= c < ids.len(),
        floor < ids[c] < v.len(),
        0 <= floor < v.len(),
    ensures
        spec_text_kids_partial(v, ids, floor, d, c) == spec_text_of_node(v, ids[c], d + 1)
            + spec_text_kids_partial(v, ids, floor, d, c + 1),
{
}

/// The partial-children outline from the start is the whole one.
proof fn lemma_text_kids_partial_all(v: Seq<NodeModel>, ids: Seq<int>, floor: int, d: int)
    ensures
        spec_text_kids_partial(v, ids, floor, d, 0) == spec_text_of_kids(v, ids, floor, d),
    decreases ids.len(),
{
    lemma_text_kids_partial_shift(v, ids, floor, d);
}

/// Shifting the partial outline matches dropping the first id.
proof fn lemma_text_kids_partial_shift(v: Seq<NodeModel>, ids: Seq<int>, floor: int, d: int)
    ensures
        spec_text_kids_partial(v, ids, floor, d, 0) == spec_text_of_kids(v, ids, floor, d),
    decreases ids.len(),
{
    if ids.len() == 0 {
    } else {
        lemma_text_kids_partial_shift(v, ids.drop_first(), floor, d);
        assert forall|from: int|
            0 <= from <= ids.drop_first().len() implies spec_text_kids_partial(
            v,
            ids.drop_first(),
            floor,
            d,
            from,
        ) == spec_text_kids_partial(v, ids, floor, d, from + 1) by {
            lemma_text_kids_partial_tail(v, ids, floor, d, from);
        }
    }
}

/// The partial outline of a tail.
proof fn lemma_text_kids_partial_tail(
    v: Seq<NodeModel>,
    ids: Seq<int>,
    floor: int,
    d: int,
    from: int,
)
    requires
        ids.len() >= 1,
        0 <= from,
    ensures
        spec_text_kids_partial(v, ids.drop_first(), floor, d, from) == spec_text_kids_partial(
            v,
            ids,
            floor,
            d,
            from + 1,
        ),
    decreases ids.len() - from,
{
    if from < ids.drop_first().len() {
        assert(ids.drop_first()[from] == ids[from + 1]);
        lemma_text_kids_partial_tail(v, ids, floor, d, from + 1);
    }
}

impl RegistriesTree {
    /// The indented text outline of the whole tree: one `key_path`
    /// line per node, one tab-led line per value, children one tab
    /// deeper.
    pub fn to_pretty_tree(&self) -> (r: String)
        requires
            self.wf(),
        ensures
            r@ == spec_to_pretty_tree(self),
    {
        let mut out: Vec<char> = Vec::new();
        let n = self.len();
        proof {
            assert(self.store().len() <= usize::MAX);
        }
        emit_node_text(self, self.root(), 0, &mut out);
        proof {
            assert(out@ =~= spec_to_pretty_tree(self));
        }
        crate::text::chars_to_string(&out)
    }
}

} // verus!
