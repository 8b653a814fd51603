//! A small JSON value tree and a verified renderer for it.
//!
//! The tree is the interchange form between the snapshot decoder and the
//! format converters: incoming payload bytes are parsed into it at the
//! process edge, and both wire formats are rendered from it by
//! `json_to_string`, whose output is pinned character by character by
//! `json_text`.

use vstd::prelude::*;

use crate::model::NumberValue;

verus! {

/// A JSON value.  Numbers keep their decimal text.
#[derive(Debug, PartialEq)]
pub enum Json {
    Null,
    Bool(bool),
    Num(NumberValue),
    Str(String),
    Arr(Vec<Json>),
    Obj(Vec<(String, Json)>),
}

/// The mathematical form of a JSON value.
pub enum JsonV {
    Null,
    Bool(bool),
    Num(Seq<char>),
    Str(Seq<char>),
    Arr(Seq<JsonV>),
    Obj(Seq<(Seq<char>, JsonV)>),
}

pub open spec fn json_view(j: Json) -> JsonV
    decreases j,
{
    match j {
        Json::Null => JsonV::Null,
        Json::Bool(b) => JsonV::Bool(b),
        Json::Num(n) => JsonV::Num(n@),
        Json::Str(s) => JsonV::Str(s@),
        Json::Arr(elems) => JsonV::Arr(json_view_elems(elems@)),
        Json::Obj(members) => JsonV::Obj(json_view_members(members@)),
    }
}

pub open spec fn json_view_elems(elems: Seq<Json>) -> Seq<JsonV>
    decreases elems,
{
    if elems.len() == 0 {
        Seq::empty()
    } else {
        seq![json_view(elems[0])] + json_view_elems(elems.skip(1))
    }
}

pub open spec fn json_view_members(members: Seq<(String, Json)>) -> Seq<(Seq<char>, JsonV)>
    decreases members,
{
    if members.len() == 0 {
        Seq::empty()
    } else {
        seq![(members[0].0@, json_view(members[0].1))] + json_view_members(members.skip(1))
    }
}

impl View for Json {
    type V = JsonV;

    open spec fn view(&self) -> JsonV {
        json_view(*self)
    }
}

/// Element views index pointwise.
pub proof fn lemma_json_view_elems(elems: Seq<Json>)
    ensures
        json_view_elems(elems).len() == elems.len(),
        forall|i: int|
            0 <= i < elems.len() ==> json_view_elems(elems)[i] == json_view(#[trigger] elems[i]),
    decreases elems.len(),
{
    if elems.len() > 0 {
        lemma_json_view_elems(elems.skip(1));
        assert forall|i: int| 0 <= i < elems.len() implies json_view_elems(elems)[i] == json_view(
            #[trigger] elems[i],
        ) by {
            if i > 0 {
                assert(json_view_elems(elems)[i] == json_view_elems(elems.skip(1))[i - 1]);
                assert(elems.skip(1)[i - 1] == elems[i]);
            }
        }
    }
}

/// Member views index pointwise.
pub proof fn lemma_json_view_members(members: Seq<(String, Json)>)
    ensures
        json_view_members(members).len() == members.len(),
        forall|i: int|
            0 <= i < members.len() ==> json_view_members(members)[i] == ((
            #[trigger] members[i]).0@, json_view(members[i].1)),
    decreases members.len(),
{
    if members.len() > 0 {
        lemma_json_view_members(members.skip(1));
        assert forall|i: int| 0 <= i < members.len() implies json_view_members(members)[i] == ((
        #[trigger] members[i]).0@, json_view(members[i].1)) by {
            if i > 0 {
                assert(json_view_members(members)[i] == json_view_members(members.skip(1))[i - 1]);
                assert(members.skip(1)[i - 1] == members[i]);
            }
        }
    }
}

// ---------------------------------------------------------------------------
// Escaping of string contents.
// ---------------------------------------------------------------------------

/// The hexadecimal digit character for `d` (0..=15), lower case.
pub open spec fn hex_char(d: int) -> char {
    if d < 10 {
        crate::text::digit_char(d)
    } else if d == 10 {
        'a'
    } else if d == 11 {
        'b'
    } else if d == 12 {
        'c'
    } else if d == 13 {
        'd'
    } else if d == 14 {
        'e'
    } else {
        'f'
    }
}

/// How one character of string content is rendered: quotes and backslashes
/// are escaped, control characters become `\u00XX`, all else is literal.
pub open spec fn esc_char(c: char) -> Seq<char> {
    if c == '"' {
        seq!['\\', '"']
    } else if c == '\\' {
        seq!['\\', '\\']
    } else if (c as u32) < 32 {
        seq!['\\', 'u', '0', '0', hex_char((c as u32) as int / 16), hex_char((c as u32) as int % 16)]
    } else {
        seq![c]
    }
}

/// The escaped rendering of string contents.
pub open spec fn esc_str(s: Seq<char>) -> Seq<char>
    decreases s.len(),
{
    if s.len() == 0 {
        Seq::empty()
    } else {
        esc_char(s[0]) + esc_str(s.skip(1))
    }
}

fn hex_str(d: u32) -> (r: &'static str)
    requires
        d < 16,
    ensures
        r@ =~= seq![hex_char(d as int)],
{
    proof {
        reveal_strlit("0");
        reveal_strlit("1");
        reveal_strlit("2");
        reveal_strlit("3");
        reveal_strlit("4");
        reveal_strlit("5");
        reveal_strlit("6");
        reveal_strlit("7");
        reveal_strlit("8");
        reveal_strlit("9");
        reveal_strlit("a");
        reveal_strlit("b");
        reveal_strlit("c");
        reveal_strlit("d");
        reveal_strlit("e");
        reveal_strlit("f");
    }
    match d {
        0 => "0",
        1 => "1",
        2 => "2",
        3 => "3",
        4 => "4",
        5 => "5",
        6 => "6",
        7 => "7",
        8 => "8",
        9 => "9",
        10 => "a",
        11 => "b",
        12 => "c",
        13 => "d",
        14 => "e",
        _ => "f",
    }
}

/// Appends the escaped rendering of `s` to `out`.
fn append_escaped(out: &mut String, s: &str)
    ensures
        final(out)@ == old(out)@ + esc_str(s@),
{
    let len = s.unicode_len();
    let mut i: usize = 0;
    proof {
        assert(s@.skip(0) =~= s@);
    }
    loop
        invariant
            i <= len,
            len == s@.len(),
            out@ + esc_str(s@.skip(i as int)) == old(out)@ + esc_str(s@),
        decreases len - i,
    {
        if i == len {
            proof {
                assert(esc_str(s@.skip(i as int)) =~= Seq::<char>::empty());
                assert(out@ =~= out@ + esc_str(s@.skip(i as int)));
            }
            return ;
        }
        let c = s.get_char(i);
        proof {
            assert(s@.skip(i as int)[0] == s@[i as int]);
            assert(s@.skip(i as int).skip(1) =~= s@.skip(i as int + 1));
        }
        let ghost out0 = out@;
        if c == '"' {
            out.append("\\\"");
            proof {
                reveal_strlit("\\\"");
                assert(("\\\"")@ =~= esc_char(c));
            }
        } else if c == '\\' {
            out.append("\\\\");
            proof {
                reveal_strlit("\\\\");
                assert(("\\\\")@ =~= esc_char(c));
            }
        } else if (c as u32) < 32 {
            out.append("\\u00");
            out.append(hex_str((c as u32) / 16));
            out.append(hex_str((c as u32) % 16));
            proof {
                reveal_strlit("\\u00");
                assert(("\\u00")@ =~= seq!['\\', 'u', '0', '0']);
                assert(out@ =~= out0 + esc_char(c));
            }
        } else {
            let piece = s.substring_char(i, i + 1);
            out.append(piece);
            proof {
                assert(piece@ =~= seq![s@[i as int]]);
                assert(piece@ =~= esc_char(c));
            }
        }
        proof {
            assert(out@ + esc_str(s@.skip(i as int + 1)) =~= out0 + esc_str(s@.skip(i as int)));
        }
        i = i + 1;
    }
}

// ---------------------------------------------------------------------------
// Rendering a JSON value to text.
// ---------------------------------------------------------------------------

/// The rendered text of a JSON value: no added whitespace, object members
/// and array elements in the order of the tree.
pub open spec fn json_text(j: JsonV) -> Seq<char>
    decreases j,
{
    match j {
        JsonV::Null => "null"@,
        JsonV::Bool(b) => if b {
            "true"@
        } else {
            "false"@
        },
        JsonV::Num(t) => t,
        JsonV::Str(s) => seq!['"'] + esc_str(s) + seq!['"'],
        JsonV::Arr(elems) => seq!['['] + arr_body(elems) + seq![']'],
        JsonV::Obj(members) => seq!['{'] + obj_body(members) + seq!['}'],
    }
}

/// The comma-separated rendering of array elements.
pub open spec fn arr_body(elems: Seq<JsonV>) -> Seq<char>
    decreases elems,
{
    if elems.len() == 0 {
        Seq::empty()
    } else if elems.len() == 1 {
        json_text(elems[0])
    } else {
        json_text(elems[0]) + seq![','] + arr_body(elems.skip(1))
    }
}

/// The comma-separated rendering of object members, each `"key":value`.
pub open spec fn obj_body(members: Seq<(Seq<char>, JsonV)>) -> Seq<char>
    decreases members,
{
    if members.len() == 0 {
        Seq::empty()
    } else if members.len() == 1 {
        member_text(members[0])
    } else {
        member_text(members[0]) + seq![','] + obj_body(members.skip(1))
    }
}

pub open spec fn member_text(m: (Seq<char>, JsonV)) -> Seq<char>
    decreases m,
{
    seq!['"'] + esc_str(m.0) + seq!['"', ':'] + json_text(m.1)
}

/// Appending one element extends the rendered body with a separator.
pub proof fn lemma_arr_body_push(elems: Seq<JsonV>, x: JsonV)
    ensures
        arr_body(elems.push(x)) == if elems.len() == 0 {
            json_text(x)
        } else {
            arr_body(elems) + seq![','] + arr_body(seq![x])
        },
    decreases elems.len(),
{
    let p = elems.push(x);
    if elems.len() == 0 {
        assert(p.len() == 1);
        assert(p[0] == x);
    } else {
        assert(p[0] == elems[0]);
        assert(p.skip(1) =~= elems.skip(1).push(x));
        lemma_arr_body_push(elems.skip(1), x);
        if elems.len() == 1 {
            assert(elems.skip(1).len() == 0);
            assert(arr_body(p) =~= json_text(elems[0]) + seq![','] + json_text(x));
            assert(arr_body(elems) =~= json_text(elems[0]));
        } else {
            assert(arr_body(p) =~= arr_body(elems) + seq![','] + arr_body(seq![x]));
        }
    }
}

/// Appending one member extends the rendered body with a separator.
pub proof fn lemma_obj_body_push(members: Seq<(Seq<char>, JsonV)>, x: (Seq<char>, JsonV))
    ensures
        obj_body(members.push(x)) == if members.len() == 0 {
            member_text(x)
        } else {
            obj_body(members) + seq![','] + member_text(x)
        },
    decreases members.len(),
{
    let p = members.push(x);
    if members.len() == 0 {
        assert(p.len() == 1);
        assert(p[0] == x);
    } else {
        assert(p[0] == members[0]);
        assert(p.skip(1) =~= members.skip(1).push(x));
        lemma_obj_body_push(members.skip(1), x);
        if members.len() == 1 {
            assert(members.skip(1).len() == 0);
            assert(obj_body(p) =~= member_text(members[0]) + seq![','] + member_text(x));
            assert(obj_body(members) =~= member_text(members[0]));
        } else {
            assert(obj_body(p) =~= obj_body(members) + seq![','] + member_text(x));
        }
    }
}

/// Renders a JSON value to its text.
pub fn json_to_string(j: &Json) -> (r: String)
    ensures
        r@ == json_text(j@),
    decreases *j,
{
    match j {
        Json::Null => {
            proof {
                reveal_strlit("null");
            }
            String::from_str("null")
        },
        Json::Bool(b) => {
            proof {
                reveal_strlit("true");
                reveal_strlit("false");
            }
            if *b {
                String::from_str("true")
            } else {
                String::from_str("false")
            }
        },
        Json::Num(n) => n.text.clone(),
        Json::Str(s) => {
            let mut out = String::from_str("\"");
            proof {
                reveal_strlit("\"");
            }
            append_escaped(&mut out, s.as_str());
            out.append("\"");
            proof {
                assert(out@ =~= json_text(j@));
            }
            out
        },
        Json::Arr(elems) => {
            let mut out = String::from_str("[");
            proof {
                reveal_strlit("[");
                reveal_strlit(",");
                reveal_strlit("]");
                lemma_json_view_elems(elems@);
                assert(json_view_elems(elems@).take(0) =~= Seq::<JsonV>::empty());
                assert(arr_body(Seq::<JsonV>::empty()) == Seq::<char>::empty());
                assert(out@ =~= seq!['['] + arr_body(json_view_elems(elems@).take(0)));
            }
            let n = elems.len();
            let mut i: usize = 0;
            while i < n
                invariant
                    i <= n,
                    n == elems@.len(),
                    out@ == seq!['['] + arr_body(json_view_elems(elems@).take(i as int)),
                    *j == Json::Arr(*elems),
                    j@ == JsonV::Arr(json_view_elems(elems@)),
                    json_view_elems(elems@).len() == n,
                    forall|k: int|
                        0 <= k < n ==> json_view_elems(elems@)[k] == json_view(
                            #[trigger] elems@[k],
                        ),
                decreases n - i,
            {
                if i > 0 {
                    out.append(",");
                }
                proof {
                    reveal_strlit("[");
                    reveal_strlit(",");
                    vstd::std_specs::vec::axiom_vec_index_decreases::<Json>(*elems, i as int);
                    assert(decreases_to!(*j => *elems));
                }
                let piece = json_to_string(&elems[i]);
                out.append(piece.as_str());
                proof {
                    let vs = json_view_elems(elems@);
                    lemma_arr_body_push(vs.take(i as int), vs[i as int]);
                    assert(vs.take(i as int).push(vs[i as int]) =~= vs.take(i as int + 1));
                    assert(arr_body(seq![vs[i as int]]) == json_text(vs[i as int]));
                    assert(out@ =~= seq!['['] + arr_body(vs.take(i as int + 1)));
                }
                i = i + 1;
            }
            out.append("]");
            proof {
                let vs = json_view_elems(elems@);
                assert(vs.take(n as int) =~= vs);
                assert(out@ =~= json_text(j@));
            }
            out
        },
        Json::Obj(members) => {
            let mut out = String::from_str("{");
            proof {
                reveal_strlit("{");
                reveal_strlit(",");
                reveal_strlit("}");
                reveal_strlit("\"");
                reveal_strlit("\":");
                lemma_json_view_members(members@);
                assert(json_view_members(members@).take(0) =~= Seq::<(Seq<char>, JsonV)>::empty());
                assert(obj_body(Seq::<(Seq<char>, JsonV)>::empty()) == Seq::<char>::empty());
                assert(out@ =~= seq!['{'] + obj_body(json_view_members(members@).take(0)));
            }
            let n = members.len();
            let mut i: usize = 0;
            while i < n
                invariant
                    i <= n,
                    n == members@.len(),
                    out@ == seq!['{'] + obj_body(json_view_members(members@).take(i as int)),
                    *j == Json::Obj(*members),
                    j@ == JsonV::Obj(json_view_members(members@)),
                    json_view_members(members@).len() == n,
                    forall|k: int|
                        0 <= k < n ==> json_view_members(members@)[k] == ((
                        #[trigger] members@[k]).0@, json_view(members@[k].1)),
                decreases n - i,
            {
                if i > 0 {
                    out.append(",");
                }
                let ghost out0 = out@;
                out.append("\"");
                append_escaped(&mut out, members[i].0.as_str());
                out.append("\":");
                proof {
                    reveal_strlit("{");
                    reveal_strlit(",");
                    reveal_strlit("\"");
                    reveal_strlit("\":");
                    vstd::std_specs::vec::axiom_vec_index_decreases::<(String, Json)>(
                        *members,
                        i as int,
                    );
                    assert(decreases_to!(members@[i as int] => members@[i as int].1));
                    assert(decreases_to!(*j => *members));
                }
                let piece = json_to_string(&members[i].1);
                out.append(piece.as_str());
                proof {
                    let vs = json_view_members(members@);
                    lemma_obj_body_push(vs.take(i as int), vs[i as int]);
                    assert(vs.take(i as int).push(vs[i as int]) =~= vs.take(i as int + 1));
                    assert(("\":")@ =~= seq!['"', ':']);
                    assert(out@ =~= out0 + member_text(vs[i as int]));
                    assert(out@ =~= seq!['{'] + obj_body(vs.take(i as int + 1)));
                }
                i = i + 1;
            }
            out.append("}");
            proof {
                let vs = json_view_members(members@);
                assert(vs.take(n as int) =~= vs);
                assert(out@ =~= json_text(j@));
            }
            out
        },
    }
}

} // verus!
