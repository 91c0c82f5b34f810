//! The library's model of a JSON document, and a verified serializer.
//!
//! Event payloads are held as [`JsonValue`]; contracts speak of the
//! ghost shape [`JsonData`] obtained through [`jview`], and of the
//! rendered text through [`json_str`].  Numbers are 64-bit signed
//! integers: the pipeline forwards payloads untouched and never needs
//! fractional values.

use vstd::prelude::*;
use vstd::string::StringExecFns;

verus! {

/// A JSON document as the executable pipeline holds it.
pub enum JsonValue {
    Null,
    Bool(bool),
    Int(i64),
    Str(String),
    Array(Vec<JsonValue>),
    Object(Vec<Member>),
}

/// One `key: value` pair of a JSON object; the order of members is kept.
pub struct Member {
    pub key: String,
    pub value: JsonValue,
}

/// The mathematical shape of a JSON document: what contracts quantify
/// over and what the serializer's specification is written against.
#[verifier::ext_equal]
pub enum JsonData {
    Null,
    Bool(bool),
    Int(int),
    Str(Seq<char>),
    Array(Seq<JsonData>),
    Object(Seq<(Seq<char>, JsonData)>),
}

/// The shape of a value.
pub open spec fn jview(v: JsonValue) -> JsonData
    decreases v,
{
    match v {
        JsonValue::Null => JsonData::Null,
        JsonValue::Bool(b) => JsonData::Bool(b),
        JsonValue::Int(i) => JsonData::Int(i as int),
        JsonValue::Str(s) => JsonData::Str(s@),
        JsonValue::Array(a) => JsonData::Array(jview_seq(a@)),
        JsonValue::Object(ms) => JsonData::Object(jview_members(ms@)),
    }
}

/// The shapes of the elements of an array, in order.
pub open spec fn jview_seq(s: Seq<JsonValue>) -> Seq<JsonData>
    decreases s,
{
    if s.len() == 0 {
        Seq::empty()
    } else {
        jview_seq(s.drop_last()).push(jview(s.last()))
    }
}

/// The shapes of the members of an object, in order.
pub open spec fn jview_members(s: Seq<Member>) -> Seq<(Seq<char>, JsonData)>
    decreases s,
{
    if s.len() == 0 {
        Seq::empty()
    } else {
        jview_members(s.drop_last()).push((s.last().key@, jview(s.last().value)))
    }
}

pub proof fn lemma_jview_seq_props(s: Seq<JsonValue>)
    ensures
        jview_seq(s).len() == s.len(),
        forall|i: int| 0 <= i < s.len() ==> jview_seq(s)[i] == jview(s[i]),
    decreases s.len(),
{
    if s.len() > 0 {
        lemma_jview_seq_props(s.drop_last());
    }
}

pub proof fn lemma_jview_members_props(s: Seq<Member>)
    ensures
        jview_members(s).len() == s.len(),
        forall|i: int|
            0 <= i < s.len() ==> jview_members(s)[i] == (s[i].key@, jview(s[i].value)),
    decreases s.len(),
{
    if s.len() > 0 {
        lemma_jview_members_props(s.drop_last());
    }
}

pub proof fn lemma_jview_seq_push(s: Seq<JsonValue>, x: JsonValue)
    ensures
        jview_seq(s.push(x)) == jview_seq(s).push(jview(x)),
{
    assert(s.push(x).drop_last() =~= s);
    assert(s.push(x).last() == x);
}

pub proof fn lemma_jview_members_push(s: Seq<Member>, x: Member)
    ensures
        jview_members(s.push(x)) == jview_members(s).push((x.key@, jview(x.value))),
{
    assert(s.push(x).drop_last() =~= s);
    assert(s.push(x).last() == x);
}

/// The decimal digit for `d`.
pub open spec fn dec_digit(d: nat) -> char {
    if d == 0 {
        '0'
    } else if d == 1 {
        '1'
    } else if d == 2 {
        '2'
    } else if d == 3 {
        '3'
    } else if d == 4 {
        '4'
    } else if d == 5 {
        '5'
    } else if d == 6 {
        '6'
    } else if d == 7 {
        '7'
    } else if d == 8 {
        '8'
    } else {
        '9'
    }
}

/// The lower-case hexadecimal digit for `d`.
pub open spec fn hex_digit(d: nat) -> char {
    if d < 10 {
        dec_digit(d)
    } else if d == 10 {
        'a'
    } else if d == 11 {
        'b'
    } else if d == 12 {
        'c'
    } else if d == 13 {
        'd'
    } else if d == 14 {
        'e'
    } else {
        'f'
    }
}

/// `n` written in decimal, without a sign.
pub open spec fn dec_str(n: nat) -> Seq<char>
    decreases n,
{
    if n < 10 {
        seq![dec_digit(n)]
    } else {
        dec_str(n / 10).push(dec_digit(n % 10))
    }
}

/// `i` written in decimal, with a leading minus when negative.
pub open spec fn int_str(i: int) -> Seq<char> {
    if i < 0 {
        seq!['-'] + dec_str((-i) as nat)
    } else {
        dec_str(i as nat)
    }
}

/// How one character is written inside a JSON string literal.
pub open spec fn esc_char(c: char) -> Seq<char> {
    if c == '"' {
        seq!['\\', '"']
    } else if c == '\\' {
        seq!['\\', '\\']
    } else if c == '\u{8}' {
        seq!['\\', 'b']
    } else if c == '\u{c}' {
        seq!['\\', 'f']
    } else if c == '\n' {
        seq!['\\', 'n']
    } else if c == '\r' {
        seq!['\\', 'r']
    } else if c == '\t' {
        seq!['\\', 't']
    } else if (c as u32) < 32 {
        seq!['\\', 'u', '0', '0', hex_digit((c as u32 / 16) as nat), hex_digit((c as u32 % 16) as nat)]
    } else {
        seq![c]
    }
}

/// A character sequence with every character escaped.
pub open spec fn esc_str(s: Seq<char>) -> Seq<char>
    decreases s.len(),
{
    if s.len() == 0 {
        Seq::empty()
    } else {
        esc_str(s.drop_last()) + esc_char(s.last())
    }
}

/// A JSON string literal: the escaped text between double quotes.
pub open spec fn quoted(s: Seq<char>) -> Seq<char> {
    seq!['"'] + esc_str(s) + seq!['"']
}

/// The rendered text of a JSON document.
pub open spec fn json_str(d: JsonData) -> Seq<char>
    decreases d,
{
    match d {
        JsonData::Null => "null"@,
        JsonData::Bool(b) => if b {
            "true"@
        } else {
            "false"@
        },
        JsonData::Int(i) => int_str(i),
        JsonData::Str(s) => quoted(s),
        JsonData::Array(a) => seq!['['] + arr_str(a) + seq![']'],
        JsonData::Object(ms) => seq!['{'] + obj_str(ms) + seq!['}'],
    }
}

/// Array elements rendered in order, separated by commas.
pub open spec fn arr_str(s: Seq<JsonData>) -> Seq<char>
    decreases s,
{
    if s.len() == 0 {
        Seq::empty()
    } else if s.len() == 1 {
        json_str(s[0])
    } else {
        arr_str(s.drop_last()) + seq![','] + json_str(s.last())
    }
}

/// Object members rendered in order, separated by commas.
pub open spec fn obj_str(ms: Seq<(Seq<char>, JsonData)>) -> Seq<char>
    decreases ms,
{
    if ms.len() == 0 {
        Seq::empty()
    } else if ms.len() == 1 {
        quoted(ms[0].0) + seq![':'] + json_str(ms[0].1)
    } else {
        obj_str(ms.drop_last()) + seq![','] + quoted(ms.last().0) + seq![':'] + json_str(
            ms.last().1,
        )
    }
}

proof fn lemma_esc_str_snoc(s: Seq<char>, i: int)
    requires
        0 <= i < s.len(),
    ensures
        esc_str(s.take(i + 1)) == esc_str(s.take(i)) + esc_char(s[i]),
{
    assert(s.take(i + 1).drop_last() =~= s.take(i));
    assert(s.take(i + 1).last() == s[i]);
}

pub(crate) proof fn lemma_arr_str_snoc(s: Seq<JsonData>, i: int)
    requires
        0 <= i < s.len(),
    ensures
        i == 0 ==> arr_str(s.take(1)) == json_str(s[0]),
        i > 0 ==> arr_str(s.take(i + 1)) == arr_str(s.take(i)) + seq![','] + json_str(s[i]),
{
    assert(s.take(i + 1).drop_last() =~= s.take(i));
    assert(s.take(i + 1).last() == s[i]);
    assert(s.take(i + 1)[0] == s[0]);
}

proof fn lemma_obj_str_snoc(ms: Seq<(Seq<char>, JsonData)>, i: int)
    requires
        0 <= i < ms.len(),
    ensures
        i == 0 ==> obj_str(ms.take(1)) == quoted(ms[0].0) + seq![':'] + json_str(ms[0].1),
        i > 0 ==> obj_str(ms.take(i + 1)) == obj_str(ms.take(i)) + seq![','] + quoted(ms[i].0)
            + seq![':'] + json_str(ms[i].1),
{
    assert(ms.take(i + 1).drop_last() =~= ms.take(i));
    assert(ms.take(i + 1).last() == ms[i]);
    assert(ms.take(i + 1)[0] == ms[0]);
}

/// Relies on `String::push` from std: appends the given character to the
/// end of the string.
#[verifier::external_body]
pub(crate) fn push_char(out: &mut String, c: char)
    ensures
        final(out)@ == old(out)@.push(c),
{
    out.push(c);
}

fn dec_digit_char(d: u64) -> (c: char)
    requires
        d < 10,
    ensures
        c == dec_digit(d as nat),
{
    if d == 0 {
        '0'
    } else if d == 1 {
        '1'
    } else if d == 2 {
        '2'
    } else if d == 3 {
        '3'
    } else if d == 4 {
        '4'
    } else if d == 5 {
        '5'
    } else if d == 6 {
        '6'
    } else if d == 7 {
        '7'
    } else if d == 8 {
        '8'
    } else {
        '9'
    }
}

fn hex_digit_char(d: u32) -> (c: char)
    requires
        d < 16,
    ensures
        c == hex_digit(d as nat),
{
    if d < 10 {
        dec_digit_char(d as u64)
    } else if d == 10 {
        'a'
    } else if d == 11 {
        'b'
    } else if d == 12 {
        'c'
    } else if d == 13 {
        'd'
    } else if d == 14 {
        'e'
    } else {
        'f'
    }
}

fn append_dec(n: u64, out: &mut String)
    ensures
        final(out)@ == old(out)@ + dec_str(n as nat),
    decreases n,
{
    if n < 10 {
        push_char(out, dec_digit_char(n));
        assert(old(out)@.push(dec_digit(n as nat)) =~= old(out)@ + dec_str(n as nat));
    } else {
        append_dec(n / 10, out);
        push_char(out, dec_digit_char(n % 10));
        assert((old(out)@ + dec_str((n / 10) as nat)).push(dec_digit((n % 10) as nat)) =~= old(
            out,
        )@ + dec_str(n as nat));
    }
}

fn append_int(i: i64, out: &mut String)
    ensures
        final(out)@ == old(out)@ + int_str(i as int),
{
    if i >= 0 {
        append_dec(i as u64, out);
    } else {
        push_char(out, '-');
        let m: u64 = if i == i64::MIN {
            9223372036854775808u64
        } else {
            (-i) as u64
        };
        append_dec(m, out);
        assert(m as nat == (-(i as int)) as nat);
        assert(old(out)@.push('-') + dec_str(m as nat) =~= old(out)@ + int_str(i as int));
    }
}

fn append_escaped(s: &str, out: &mut String)
    ensures
        final(out)@ == old(out)@ + esc_str(s@),
{
    let n = s.unicode_len();
    let mut i: usize = 0;
    while i < n
        invariant
            i <= n,
            n == s@.len(),
            out@ == old(out)@ + esc_str(s@.take(i as int)),
        decreases n - i,
    {
        let ghost pre = out@;
        let c = s.get_char(i);
        if c == '"' {
            out.append("\\\"");
            proof {
                reveal_strlit("\\\"");
                assert("\\\""@ =~= esc_char(c));
            }
        } else if c == '\\' {
            out.append("\\\\");
            proof {
                reveal_strlit("\\\\");
                assert("\\\\"@ =~= esc_char(c));
            }
        } else if c == '\u{8}' {
            out.append("\\b");
            proof {
                reveal_strlit("\\b");
                assert("\\b"@ =~= esc_char(c));
            }
        } else if c == '\u{c}' {
            out.append("\\f");
            proof {
                reveal_strlit("\\f");
                assert("\\f"@ =~= esc_char(c));
            }
        } else if c == '\n' {
            out.append("\\n");
            proof {
                reveal_strlit("\\n");
                assert("\\n"@ =~= esc_char(c));
            }
        } else if c == '\r' {
            out.append("\\r");
            proof {
                reveal_strlit("\\r");
                assert("\\r"@ =~= esc_char(c));
            }
        } else if c == '\t' {
            out.append("\\t");
            proof {
                reveal_strlit("\\t");
                assert("\\t"@ =~= esc_char(c));
            }
        } else if (c as u32) < 32 {
            out.append("\\u00");
            push_char(out, hex_digit_char((c as u32) / 16));
            push_char(out, hex_digit_char((c as u32) % 16));
            proof {
                reveal_strlit("\\u00");
                assert(pre + "\\u00"@.push(hex_digit((c as u32 / 16) as nat)).push(
                    hex_digit((c as u32 % 16) as nat),
                ) =~= pre + esc_char(c));
                assert(out@ =~= pre + esc_char(c));
            }
        } else {
            push_char(out, c);
            assert(pre.push(c) =~= pre + esc_char(c));
        }
        proof {
            lemma_esc_str_snoc(s@, i as int);
            assert(out@ =~= old(out)@ + esc_str(s@.take(i as int + 1)));
        }
        i = i + 1;
    }
    assert(s@.take(n as int) =~= s@);
}

pub(crate) fn append_quoted(s: &str, out: &mut String)
    ensures
        final(out)@ == old(out)@ + quoted(s@),
{
    push_char(out, '"');
    append_escaped(s, out);
    push_char(out, '"');
    assert((old(out)@.push('"') + esc_str(s@)).push('"') =~= old(out)@ + quoted(s@));
}

/// Appends the rendered text of `v` to `out`.
pub fn write_json(v: &JsonValue, out: &mut String)
    ensures
        final(out)@ == old(out)@ + json_str(jview(*v)),
    decreases *v,
{
    match v {
        JsonValue::Null => {
            out.append("null");
        },
        JsonValue::Bool(b) => {
            if *b {
                out.append("true");
            } else {
                out.append("false");
            }
        },
        JsonValue::Int(i) => {
            append_int(*i, out);
        },
        JsonValue::Str(s) => {
            append_quoted(s.as_str(), out);
        },
        JsonValue::Array(a) => {
            let ghost elems = jview_seq(a@);
            proof {
                assert(*v == JsonValue::Array(*a));
                lemma_jview_seq_props(a@);
            }
            push_char(out, '[');
            let mut i: usize = 0;
            while i < a.len()
                invariant
                    *v == JsonValue::Array(*a),
                    i <= a.len(),
                    elems == jview_seq(a@),
                    elems.len() == a@.len(),
                    forall|j: int| 0 <= j < a@.len() ==> elems[j] == jview(a@[j]),
                    out@ == old(out)@.push('[') + arr_str(elems.take(i as int)),
                decreases a.len() - i,
            {
                if i > 0 {
                    push_char(out, ',');
                }
                proof {
                    assert(decreases_to!(*v => v->Array_0));
                    assert(decreases_to!(*a => a@));
                    assert(decreases_to!(a@ => a@[i as int]));
                }
                write_json(&a[i], out);
                proof {
                    lemma_arr_str_snoc(elems, i as int);
                    assert(out@ =~= old(out)@.push('[') + arr_str(elems.take(i as int + 1)));
                }
                i = i + 1;
            }
            push_char(out, ']');
            proof {
                assert(elems.take(a@.len() as int) =~= elems);
                assert((old(out)@.push('[') + arr_str(elems)).push(']') =~= old(out)@
                    + json_str(jview(*v)));
            }
        },
        JsonValue::Object(ms) => {
            let ghost membs = jview_members(ms@);
            proof {
                lemma_jview_members_props(ms@);
            }
            push_char(out, '{');
            let mut i: usize = 0;
            while i < ms.len()
                invariant
                    *v == JsonValue::Object(*ms),
                    i <= ms.len(),
                    membs == jview_members(ms@),
                    membs.len() == ms@.len(),
                    forall|j: int|
                        0 <= j < ms@.len() ==> membs[j] == (ms@[j].key@, jview(ms@[j].value)),
                    out@ == old(out)@.push('{') + obj_str(membs.take(i as int)),
                decreases ms.len() - i,
            {
                if i > 0 {
                    push_char(out, ',');
                }
                append_quoted(ms[i].key.as_str(), out);
                push_char(out, ':');
                proof {
                    assert(decreases_to!(*v => v->Object_0));
                    assert(decreases_to!(*ms => ms@));
                    assert(decreases_to!(ms@ => ms@[i as int]));
                    assert(decreases_to!(ms@[i as int] => ms@[i as int].value));
                }
                write_json(&ms[i].value, out);
                proof {
                    lemma_obj_str_snoc(membs, i as int);
                    assert(out@ =~= old(out)@.push('{') + obj_str(membs.take(i as int + 1)));
                }
                i = i + 1;
            }
            push_char(out, '}');
            proof {
                assert(membs.take(ms@.len() as int) =~= membs);
                assert((old(out)@.push('{') + obj_str(membs)).push('}') =~= old(out)@
                    + json_str(jview(*v)));
            }
        },
    }
}

/// Renders `v` as JSON text.
pub fn json_to_string(v: &JsonValue) -> (s: String)
    ensures
        s@ == json_str(jview(*v)),
{
    let mut s = String::new();
    write_json(v, &mut s);
    assert(Seq::<char>::empty() + json_str(jview(*v)) =~= json_str(jview(*v)));
    s
}

} // verus!
