use vstd::prelude::*;

use crate::text::{dec_digits, dec_int, i64_to_string, u64_to_string};

verus! {

/// Mathematical value of a JSON document: the model that the contracts
/// of the codec and of the printer speak of.
pub enum JVal {
    Null,
    Bool(bool),
    UInt(u64),
    Int(i64),
    Str(Seq<char>),
    Arr(Seq<JVal>),
    Obj(Seq<(Seq<char>, JVal)>),
}

/// Executable JSON document tree. Entities are encoded into this tree
/// before being rendered to text; decoding reads it back.
#[derive(Debug, PartialEq)]
pub enum Json {
    Null,
    Bool(bool),
    UInt(u64),
    Int(i64),
    Str(String),
    Arr(Vec<Json>),
    Obj(Vec<(String, Json)>),
}

/// Mathematical value of an executable JSON tree.
pub open spec fn jval_of(j: Json) -> JVal
    decreases j,
{
    match j {
        Json::Null => JVal::Null,
        Json::Bool(b) => JVal::Bool(b),
        Json::UInt(n) => JVal::UInt(n),
        Json::Int(n) => JVal::Int(n),
        Json::Str(s) => JVal::Str(s@),
        Json::Arr(items) => JVal::Arr(jvals_of(items@)),
        Json::Obj(entries) => JVal::Obj(jobj_of(entries@)),
    }
}

/// Values of the elements of a JSON array.
pub open spec fn jvals_of(items: Seq<Json>) -> Seq<JVal>
    decreases items,
{
    if items.len() == 0 {
        Seq::<JVal>::empty()
    } else {
        seq![jval_of(items[0])] + jvals_of(items.drop_first())
    }
}

/// Values of the entries of a JSON object.
pub open spec fn jobj_of(entries: Seq<(String, Json)>) -> Seq<(Seq<char>, JVal)>
    decreases entries,
{
    if entries.len() == 0 {
        Seq::<(Seq<char>, JVal)>::empty()
    } else {
        seq![(entries[0].0@, jval_of(entries[0].1))] + jobj_of(entries.drop_first())
    }
}

impl View for Json {
    type V = JVal;

    open spec fn view(&self) -> JVal {
        jval_of(*self)
    }
}

/// Object entry values distribute over push.
pub proof fn lemma_jobj_push(s: Seq<(String, Json)>, x: (String, Json))
    ensures
        jobj_of(s.push(x)) =~= jobj_of(s) + seq![(x.0@, jval_of(x.1))],
    decreases s.len(),
{
    if s.len() == 0 {
        assert(s.push(x).drop_first() =~= s);
    } else {
        assert(s.push(x).drop_first() =~= s.drop_first().push(x));
        lemma_jobj_push(s.drop_first(), x);
    }
}

/// An array's values are as many as its elements.
pub proof fn lemma_jvals_len(s: Seq<Json>)
    ensures
        jvals_of(s).len() == s.len(),
    decreases s.len(),
{
    if s.len() > 0 {
        lemma_jvals_len(s.drop_first());
    }
}

/// An object's entry values are as many as its entries.
pub proof fn lemma_jobj_len(s: Seq<(String, Json)>)
    ensures
        jobj_of(s).len() == s.len(),
    decreases s.len(),
{
    if s.len() > 0 {
        lemma_jobj_len(s.drop_first());
    }
}

/// Each array element's value stands at its own index.
pub proof fn lemma_jvals_index(s: Seq<Json>, i: int)
    requires
        0 <= i < s.len(),
    ensures
        jvals_of(s).len() == s.len(),
        jvals_of(s)[i] == jval_of(s[i]),
    decreases s.len(),
{
    lemma_jvals_len(s);
    if i > 0 {
        lemma_jvals_index(s.drop_first(), i - 1);
    } else {
        lemma_jvals_len(s.drop_first());
    }
}

/// Each object entry's key view and value stand at their own index.
pub proof fn lemma_jobj_index(s: Seq<(String, Json)>, i: int)
    requires
        0 <= i < s.len(),
    ensures
        jobj_of(s).len() == s.len(),
        jobj_of(s)[i] == (s[i].0@, jval_of(s[i].1)),
    decreases s.len(),
{
    lemma_jobj_len(s);
    if i > 0 {
        lemma_jobj_index(s.drop_first(), i - 1);
    } else {
        lemma_jobj_len(s.drop_first());
    }
}

/// Structural copy of a JSON tree; the copy has the same value.
#[verifier::loop_isolation(false)]
pub fn json_clone(j: &Json) -> (r: Json)
    ensures
        r@ == j@,
    decreases *j,
{
    match j {
        Json::Null => Json::Null,
        Json::Bool(b) => Json::Bool(*b),
        Json::UInt(n) => Json::UInt(*n),
        Json::Int(n) => Json::Int(*n),
        Json::Str(s) => Json::Str(s.clone()),
        Json::Arr(items) => {
            let mut out: Vec<Json> = Vec::new();
            let mut i: usize = 0;
            while i < items.len()
                invariant
                    0 <= i <= items@.len(),
                    out@.len() == i,
                    forall|k: int| 0 <= k < i ==> jval_of(#[trigger] out@[k]) == jval_of(items@[k]),
                decreases items@.len() - i,
            {
                proof {
                    assert(*j == Json::Arr(*items));
                    assert(decreases_to!(Json::Arr(*items) => *items));
                    vstd::std_specs::vec::axiom_vec_index_decreases(*items, i as int);
                    assert(decreases_to!(*j => items@[i as int]));
                }
                let c = json_clone(&items[i]);
                out.push(c);
                i = i + 1;
            }
            proof {
                lemma_jvals_congruence(out@, items@);
            }
            Json::Arr(out)
        },
        Json::Obj(entries) => {
            let mut out: Vec<(String, Json)> = Vec::new();
            let mut i: usize = 0;
            while i < entries.len()
                invariant
                    0 <= i <= entries@.len(),
                    out@.len() == i,
                    forall|k: int|
                        0 <= k < i ==> (#[trigger] out@[k]).0@ == entries@[k].0@ && jval_of(
                            out@[k].1,
                        ) == jval_of(entries@[k].1),
                decreases entries@.len() - i,
            {
                proof {
                    assert(*j == Json::Obj(*entries));
                    assert(decreases_to!(Json::Obj(*entries) => *entries));
                    vstd::std_specs::vec::axiom_vec_index_decreases(*entries, i as int);
                    let pair = entries@[i as int];
                    assert(decreases_to!(pair => pair.1));
                    assert(decreases_to!(*j => entries@[i as int].1));
                }
                let key = entries[i].0.clone();
                let val = json_clone(&entries[i].1);
                out.push((key, val));
                i = i + 1;
            }
            proof {
                lemma_jobj_congruence(out@, entries@);
            }
            Json::Obj(out)
        },
    }
}

/// Hexadecimal digit as a lower-case character.
pub open spec fn hex_digit(d: nat) -> char {
    if d < 10 {
        ((48 + d) as u8) as char
    } else {
        ((87 + d) as u8) as char
    }
}

/// JSON escape of one character of a string body: quotes and
/// backslashes are escaped, control characters become `\u00XX`.
pub open spec fn escape_char(c: char) -> Seq<char> {
    if c == '"' {
        seq!['\\', '"']
    } else if c == '\\' {
        seq!['\\', '\\']
    } else if (c as u32) < 32 {
        seq!['\\', 'u', '0', '0', hex_digit((c as u32) as nat / 16), hex_digit(
            (c as u32) as nat % 16,
        )]
    } else {
        seq![c]
    }
}

/// JSON escape of a whole string body.
pub open spec fn escape_text(s: Seq<char>) -> Seq<char>
    decreases s.len(),
{
    if s.len() == 0 {
        Seq::<char>::empty()
    } else {
        escape_text(s.drop_last()) + escape_char(s.last())
    }
}

/// Two spaces of indentation per nesting level.
pub open spec fn indent_text(depth: nat) -> Seq<char>
    decreases depth,
{
    if depth == 0 {
        Seq::<char>::empty()
    } else {
        indent_text((depth - 1) as nat) + seq![' ', ' ']
    }
}

/// Pretty-printed text of a JSON value standing at the given nesting
/// depth: arrays and objects open a new line per element and close on
/// a line of their own; empty ones print as a bare pair of brackets.
pub open spec fn jval_text(v: JVal, depth: nat) -> Seq<char>
    decreases v,
{
    match v {
        JVal::Null => "null"@,
        JVal::Bool(b) => if b {
            "true"@
        } else {
            "false"@
        },
        JVal::UInt(n) => dec_digits(n as nat),
        JVal::Int(n) => dec_int(n as int),
        JVal::Str(s) => seq!['"'] + escape_text(s) + seq!['"'],
        JVal::Arr(items) => if items.len() == 0 {
            "[]"@
        } else {
            seq!['['] + arr_text(items, depth + 1) + seq!['\n'] + indent_text(depth) + seq![']']
        },
        JVal::Obj(entries) => if entries.len() == 0 {
            "{}"@
        } else {
            seq!['{'] + obj_text(entries, depth + 1) + seq!['\n'] + indent_text(depth) + seq!['}']
        },
    }
}

/// Body of a non-empty array: one indented line per element, separated
/// by commas.
pub open spec fn arr_text(items: Seq<JVal>, depth: nat) -> Seq<char>
    decreases items,
{
    if items.len() == 0 {
        Seq::<char>::empty()
    } else if items.len() == 1 {
        seq!['\n'] + indent_text(depth) + jval_text(items[0], depth)
    } else {
        arr_text(items.drop_last(), depth) + seq![','] + seq!['\n'] + indent_text(depth)
            + jval_text(items.last(), depth)
    }
}

/// Body of a non-empty object: one indented line per entry, the quoted
/// escaped key, a colon, and the value.
pub open spec fn obj_text(entries: Seq<(Seq<char>, JVal)>, depth: nat) -> Seq<char>
    decreases entries,
{
    if entries.len() == 0 {
        Seq::<char>::empty()
    } else if entries.len() == 1 {
        seq!['\n'] + indent_text(depth) + seq!['"'] + escape_text(entries[0].0) + seq!['"'] + ": "@
            + jval_text(entries[0].1, depth)
    } else {
        obj_text(entries.drop_last(), depth) + seq![','] + seq!['\n'] + indent_text(depth)
            + seq!['"'] + escape_text(entries.last().0) + seq!['"'] + ": "@ + jval_text(
            entries.last().1,
            depth,
        )
    }
}

/// Renders one hexadecimal digit.
fn hex_digit_char(d: u8) -> (r: char)
    requires
        d < 16,
    ensures
        r == hex_digit(d as nat),
{
    if d < 10 {
        (48 + d) as char
    } else {
        (87 + d) as char
    }
}

/// Appends the JSON escape of a string body.
#[verifier::loop_isolation(false)]
fn write_escaped(s: &str, out: &mut String)
    ensures
        final(out)@ == old(out)@ + escape_text(s@),
{
    let n = s.unicode_len();
    let mut i: usize = 0;
    while i < n
        invariant
            0 <= i <= n,
            out@ == old(out)@ + escape_text(s@.subrange(0, i as int)),
        decreases n - i,
    {
        let c = s.get_char(i);
        if c == '"' {
            out.push('\\');
            out.push('"');
        } else if c == '\\' {
            out.push('\\');
            out.push('\\');
        } else if (c as u32) < 32 {
            out.push('\\');
            out.push('u');
            out.push('0');
            out.push('0');
            let code = c as u32;
            out.push(hex_digit_char((code / 16) as u8));
            out.push(hex_digit_char((code % 16) as u8));
        } else {
            out.push(c);
        }
        proof {
            let pre = s@.subrange(0, i as int);
            let post = s@.subrange(0, i + 1);
            assert(post.drop_last() =~= pre);
            assert(post.last() == s@[i as int]);
            assert(out@ =~= old(out)@ + escape_text(post));
        }
        i = i + 1;
    }
    proof {
        assert(s@.subrange(0, n as int) =~= s@);
    }
}

/// Appends the pretty-printed text of one JSON value; `indent` must be
/// the indentation of the value's depth.
#[verifier::loop_isolation(false)]
#[verifier::rlimit(100)]
fn write_json(j: &Json, indent: &String, Ghost(depth): Ghost<nat>, out: &mut String)
    requires
        indent@ == indent_text(depth),
    ensures
        final(out)@ == old(out)@ + jval_text(jval_of(*j), depth),
    decreases *j,
{
    match j {
        Json::Null => out.append("null"),
        Json::Bool(b) => {
            if *b {
                out.append("true")
            } else {
                out.append("false")
            }
        },
        Json::UInt(n) => {
            let d = u64_to_string(*n);
            out.append(d.as_str());
        },
        Json::Int(n) => {
            let d = i64_to_string(*n);
            out.append(d.as_str());
        },
        Json::Str(s) => {
            out.push('"');
            write_escaped(s.as_str(), out);
            out.push('"');
        },
        Json::Arr(items) => {
            if items.len() == 0 {
                proof {
                    lemma_jvals_len(items@);
                }
                out.append("[]");
            } else {
                proof {
                    lemma_jvals_len(items@);
                    assert(*j == Json::Arr(*items));
                    assert(decreases_to!(Json::Arr(*items) => *items));
                }
                write_json_arr(items, indent, Ghost(depth), out);
            }
        },
        Json::Obj(entries) => {
            if entries.len() == 0 {
                proof {
                    lemma_jobj_len(entries@);
                }
                out.append("{}");
            } else {
                proof {
                    lemma_jobj_len(entries@);
                    assert(*j == Json::Obj(*entries));
                    assert(decreases_to!(Json::Obj(*entries) => *entries));
                }
                write_json_obj(entries, indent, Ghost(depth), out);
            }
        },
    }
}

/// Appends a non-empty array: brackets, one indented line per element.
#[verifier::loop_isolation(false)]
#[verifier::rlimit(100)]
fn write_json_arr(items: &Vec<Json>, indent: &String, Ghost(depth): Ghost<nat>, out: &mut String)
    requires
        indent@ == indent_text(depth),
        items@.len() > 0,
    ensures
        final(out)@ == old(out)@ + seq!['['] + arr_text(jvals_of(items@), depth + 1) + seq!['\n']
            + indent_text(depth) + seq![']'],
    decreases *items,
{
    proof {
        lemma_jvals_len(items@);
    }
    let ghost vs = jvals_of(items@);
    out.push('[');
    let mut child_indent = indent.clone();
    child_indent.append("  ");
    proof {
        reveal_strlit("  ");
        assert(child_indent@ =~= indent_text(depth + 1));
    }
    let mut i: usize = 0;
    while i < items.len()
        invariant
            0 <= i <= items@.len(),
            out@ == old(out)@ + seq!['['] + arr_text(vs.take(i as int), depth + 1),
        decreases items@.len() - i,
    {
        if i > 0 {
            out.push(',');
        }
        out.push('\n');
        out.append(child_indent.as_str());
        proof {
            vstd::std_specs::vec::axiom_vec_index_decreases(*items, i as int);
        }
        write_json(&items[i], &child_indent, Ghost(depth + 1), out);
        proof {
            lemma_jvals_index(items@, i as int);
            let pre = vs.take(i as int);
            let post = vs.take(i + 1);
            assert(post.drop_last() =~= pre);
            assert(post.last() == vs[i as int]);
            assert(out@ =~= old(out)@ + seq!['['] + arr_text(post, depth + 1));
        }
        i = i + 1;
    }
    proof {
        assert(vs.take(vs.len() as int) =~= vs);
    }
    out.push('\n');
    out.append(indent.as_str());
    out.push(']');
}

/// Appends a non-empty object: braces, one indented line per entry.
#[verifier::loop_isolation(false)]
#[verifier::rlimit(100)]
fn write_json_obj(
    entries: &Vec<(String, Json)>,
    indent: &String,
    Ghost(depth): Ghost<nat>,
    out: &mut String,
)
    requires
        indent@ == indent_text(depth),
        entries@.len() > 0,
    ensures
        final(out)@ == old(out)@ + seq!['{'] + obj_text(jobj_of(entries@), depth + 1)
            + seq!['\n'] + indent_text(depth) + seq!['}'],
    decreases *entries,
{
    proof {
        lemma_jobj_len(entries@);
    }
    let ghost es = jobj_of(entries@);
    out.push('{');
    let mut child_indent = indent.clone();
    child_indent.append("  ");
    proof {
        reveal_strlit("  ");
        assert(child_indent@ =~= indent_text(depth + 1));
    }
    let mut i: usize = 0;
    while i < entries.len()
        invariant
            0 <= i <= entries@.len(),
            out@ == old(out)@ + seq!['{'] + obj_text(es.take(i as int), depth + 1),
        decreases entries@.len() - i,
    {
        if i > 0 {
            out.push(',');
        }
        out.push('\n');
        out.append(child_indent.as_str());
        out.push('"');
        write_escaped(entries[i].0.as_str(), out);
        out.push('"');
        out.append(": ");
        proof {
            vstd::std_specs::vec::axiom_vec_index_decreases(*entries, i as int);
            let pair = entries@[i as int];
            assert(decreases_to!(pair => pair.1));
        }
        write_json(&entries[i].1, &child_indent, Ghost(depth + 1), out);
        proof {
            lemma_jobj_index(entries@, i as int);
            let pre = es.take(i as int);
            let post = es.take(i + 1);
            assert(post.drop_last() =~= pre);
            assert(post.last() == es[i as int]);
            assert(out@ =~= old(out)@ + seq!['{'] + obj_text(post, depth + 1));
        }
        i = i + 1;
    }
    proof {
        assert(es.take(es.len() as int) =~= es);
    }
    out.push('\n');
    out.append(indent.as_str());
    out.push('}');
}

/// Pretty-prints a JSON tree: the form in which payloads are persisted.
pub fn json_to_string_pretty(j: &Json) -> (r: String)
    ensures
        r@ == jval_text(j@, 0),
{
    let mut out = String::new();
    let indent = String::new();
    proof {
        assert(indent@ =~= indent_text(0));
    }
    write_json(j, &indent, Ghost(0nat), &mut out);
    proof {
        assert(out@ =~= jval_text(j@, 0));
    }
    out
}

/// Two arrays whose elements agree in value agree as arrays.
pub proof fn lemma_jvals_congruence(a: Seq<Json>, b: Seq<Json>)
    requires
        a.len() == b.len(),
        forall|k: int| 0 <= k < a.len() ==> jval_of(#[trigger] a[k]) == jval_of(b[k]),
    ensures
        jvals_of(a) =~= jvals_of(b),
{
    lemma_jvals_len(a);
    lemma_jvals_len(b);
    assert forall|i: int| 0 <= i < jvals_of(a).len() implies jvals_of(a)[i] == jvals_of(b)[i] by {
        lemma_jvals_index(a, i);
        lemma_jvals_index(b, i);
    }
}

/// Two objects whose keys agree in view and values agree in value
/// agree as objects.
pub proof fn lemma_jobj_congruence(a: Seq<(String, Json)>, b: Seq<(String, Json)>)
    requires
        a.len() == b.len(),
        forall|k: int|
            0 <= k < a.len() ==> (#[trigger] a[k]).0@ == b[k].0@ && jval_of(a[k].1) == jval_of(
                b[k].1,
            ),
    ensures
        jobj_of(a) =~= jobj_of(b),
{
    lemma_jobj_len(a);
    lemma_jobj_len(b);
    assert forall|i: int| 0 <= i < jobj_of(a).len() implies jobj_of(a)[i] == jobj_of(b)[i] by {
        lemma_jobj_index(a, i);
        lemma_jobj_index(b, i);
    }
}

} // verus!
