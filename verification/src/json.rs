//! JSON documents: a plain value type, a verified writer with an exact
//! character-level specification, and a trusted parser built on `serde_json`.
//!
//! The registry manifest, the per-plugin manifests and the dependency
//! declaration files are all JSON. Parsing is delegated to `serde_json` and
//! its result is carried over into [`Json`], a type this crate's logic can
//! inspect; writing is this crate's own verified code, so the contracts of
//! the mutation pipelines can state the exact bytes they leave on disk.

use vstd::prelude::*;

verus! {

/// A JSON value. Numbers keep the literal text the parser saw, so a document
/// that is read and written back keeps its numbers untouched.
#[derive(Debug)]
#[verifier::ext_equal]
pub enum Json {
    Null,
    Bool(bool),
    Num(String),
    Str(String),
    Arr(Vec<Json>),
    Obj(Vec<(String, Json)>),
}

/// The character for one hexadecimal digit.
pub open spec fn hex_char(d: nat) -> char {
    if d == 0 {
        '0'
    } else if d == 1 {
        '1'
    } else if d == 2 {
        '2'
    } else if d == 3 {
        '3'
    } else if d == 4 {
        '4'
    } else if d == 5 {
        '5'
    } else if d == 6 {
        '6'
    } else if d == 7 {
        '7'
    } else if d == 8 {
        '8'
    } else if d == 9 {
        '9'
    } else if d == 10 {
        'a'
    } else if d == 11 {
        'b'
    } else if d == 12 {
        'c'
    } else if d == 13 {
        'd'
    } else if d == 14 {
        'e'
    } else {
        'f'
    }
}

/// How one character is written inside a JSON string literal.
pub open spec fn esc_char(c: char) -> Seq<char> {
    if c == '"' {
        seq!['\\', '"']
    } else if c == '\\' {
        seq!['\\', '\\']
    } else if c == '\n' {
        seq!['\\', 'n']
    } else if c == '\t' {
        seq!['\\', 't']
    } else if c == '\r' {
        seq!['\\', 'r']
    } else if (c as nat) < 32 {
        seq!['\\', 'u', '0', '0', hex_char((c as nat) / 16), hex_char((c as nat) % 16)]
    } else {
        seq![c]
    }
}

/// The body of a JSON string literal for the characters `s`.
pub open spec fn str_text(s: Seq<char>) -> Seq<char>
    decreases s.len(),
{
    if s.len() == 0 {
        Seq::empty()
    } else {
        str_text(s.drop_last()) + esc_char(s.last())
    }
}

/// A quoted JSON string literal for the characters `s`.
pub open spec fn quoted(s: Seq<char>) -> Seq<char> {
    seq!['"'] + str_text(s) + seq!['"']
}

/// The exact text this crate writes for a JSON value.
pub open spec fn json_text(v: Json) -> Seq<char>
    decreases v,
{
    match v {
        Json::Null => seq!['n', 'u', 'l', 'l'],
        Json::Bool(b) => if b {
            seq!['t', 'r', 'u', 'e']
        } else {
            seq!['f', 'a', 'l', 's', 'e']
        },
        Json::Num(s) => s@,
        Json::Str(s) => quoted(s@),
        Json::Arr(items) => seq!['['] + arr_text(items@) + seq![']'],
        Json::Obj(fields) => seq!['{'] + obj_text(fields@) + seq!['}'],
    }
}

pub open spec fn arr_text(items: Seq<Json>) -> Seq<char>
    decreases items,
{
    if items.len() == 0 {
        Seq::empty()
    } else if items.len() == 1 {
        json_text(items[0])
    } else {
        arr_text(items.drop_last()) + seq![','] + json_text(items.last())
    }
}

pub open spec fn obj_text(fields: Seq<(String, Json)>) -> Seq<char>
    decreases fields,
{
    if fields.len() == 0 {
        Seq::empty()
    } else if fields.len() == 1 {
        quoted(fields[0].0@) + seq![':'] + json_text(fields[0].1)
    } else {
        obj_text(fields.drop_last()) + seq![','] + quoted(fields.last().0@) + seq![':']
            + json_text(fields.last().1)
    }
}

fn hex_str(d: u32) -> (r: &'static str)
    requires
        d < 16,
    ensures
        r@ == seq![hex_char(d as nat)],
{
    proof {
        reveal_strlit("0");
        reveal_strlit("1");
        reveal_strlit("2");
        reveal_strlit("3");
        reveal_strlit("4");
        reveal_strlit("5");
        reveal_strlit("6");
        reveal_strlit("7");
        reveal_strlit("8");
        reveal_strlit("9");
        reveal_strlit("a");
        reveal_strlit("b");
        reveal_strlit("c");
        reveal_strlit("d");
        reveal_strlit("e");
        reveal_strlit("f");
    }
    if d == 0 {
        "0"
    } else if d == 1 {
        "1"
    } else if d == 2 {
        "2"
    } else if d == 3 {
        "3"
    } else if d == 4 {
        "4"
    } else if d == 5 {
        "5"
    } else if d == 6 {
        "6"
    } else if d == 7 {
        "7"
    } else if d == 8 {
        "8"
    } else if d == 9 {
        "9"
    } else if d == 10 {
        "a"
    } else if d == 11 {
        "b"
    } else if d == 12 {
        "c"
    } else if d == 13 {
        "d"
    } else if d == 14 {
        "e"
    } else {
        "f"
    }
}

/// Appends `s` to `out` in JSON string-literal form.
fn append_escaped(out: &mut String, s: &str)
    ensures
        final(out)@ == old(out)@ + str_text(s@),
{
    let len = s.unicode_len();
    let mut i: usize = 0;
    while i < len
        invariant
            len == s@.len(),
            i <= len,
            out@ == old(out)@ + str_text(s@.subrange(0, i as int)),
        decreases len - i,
    {
        let ghost pre = s@.subrange(0, i as int);
        let ghost pre1 = s@.subrange(0, i as int + 1);
        proof {
            assert(pre1.drop_last() =~= pre);
            assert(pre1.last() == s@[i as int]);
        }
        let c = s.get_char(i);
        if c == '"' {
            out.append("\\\"");
            proof {
                reveal_strlit("\\\"");
                assert("\\\""@ =~= esc_char('"'));
            }
        } else if c == '\\' {
            out.append("\\\\");
            proof {
                reveal_strlit("\\\\");
                assert("\\\\"@ =~= esc_char('\\'));
            }
        } else if c == '\n' {
            out.append("\\n");
            proof {
                reveal_strlit("\\n");
                assert("\\n"@ =~= esc_char('\n'));
            }
        } else if c == '\t' {
            out.append("\\t");
            proof {
                reveal_strlit("\\t");
                assert("\\t"@ =~= esc_char('\t'));
            }
        } else if c == '\r' {
            out.append("\\r");
            proof {
                reveal_strlit("\\r");
                assert("\\r"@ =~= esc_char('\r'));
            }
        } else if (c as u32) < 32 {
            out.append("\\u00");
            let code = c as u32;
            out.append(hex_str(code / 16));
            out.append(hex_str(code % 16));
            proof {
                reveal_strlit("\\u00");
                assert(out@ =~= old(out)@ + str_text(pre) + esc_char(c));
            }
        } else {
            let one = s.substring_char(i, i + 1);
            out.append(one);
            proof {
                assert(one@ =~= seq![c]);
                assert(esc_char(c) == seq![c]);
            }
        }
        proof {
            assert(out@ =~= old(out)@ + str_text(pre1));
        }
        i += 1;
    }
    proof {
        assert(s@.subrange(0, len as int) =~= s@);
    }
}

/// Appends the quoted JSON string literal for `s` to `out`.
pub(crate) fn append_quoted(out: &mut String, s: &str)
    ensures
        final(out)@ == old(out)@ + quoted(s@),
{
    out.append("\"");
    append_escaped(out, s);
    out.append("\"");
    proof {
        reveal_strlit("\"");
        assert(out@ =~= old(out)@ + quoted(s@));
    }
}

/// Appends the text of `v` to `out`.
#[verifier::loop_isolation(false)]
#[verifier::rlimit(30)]
fn append_json(out: &mut String, v: &Json)
    ensures
        final(out)@ == old(out)@ + json_text(*v),
    decreases *v,
{
    match v {
        Json::Null => {
            out.append("null");
            proof {
                reveal_strlit("null");
                assert(out@ =~= old(out)@ + json_text(*v));
            }
        },
        Json::Bool(b) => {
            if *b {
                out.append("true");
                proof {
                    reveal_strlit("true");
                    assert(out@ =~= old(out)@ + json_text(*v));
                }
            } else {
                out.append("false");
                proof {
                    reveal_strlit("false");
                    assert(out@ =~= old(out)@ + json_text(*v));
                }
            }
        },
        Json::Num(s) => {
            out.append(s.as_str());
        },
        Json::Str(s) => {
            append_quoted(out, s.as_str());
        },
        Json::Arr(items) => {
            out.append("[");
            let ghost opened = out@;
            proof {
                reveal_strlit("[");
            }
            let n = items.len();
            let mut i: usize = 0;
            while i < n
                invariant
                    n == items@.len(),
                    i <= n,
                    out@ == opened + arr_text(items@.subrange(0, i as int)),
                    forall|k: int| 0 <= k < n ==> #[trigger] items@[k] == items[k],
                decreases n - i,
            {
                let ghost pre = items@.subrange(0, i as int);
                let ghost pre1 = items@.subrange(0, i as int + 1);
                proof {
                    assert(pre1.drop_last() =~= pre);
                    assert(pre1.last() == items@[i as int]);
                }
                if i > 0 {
                    out.append(",");
                    proof {
                        reveal_strlit(",");
                    }
                }
                proof {
                    assert(decreases_to!(*v => items@[i as int]));
                }
                append_json(out, &items[i]);
                proof {
                    if i == 0 {
                        assert(arr_text(pre1) == json_text(items@[0]));
                        assert(out@ =~= opened + arr_text(pre1));
                    } else {
                        assert(out@ =~= opened + arr_text(pre1));
                    }
                }
                i += 1;
            }
            out.append("]");
            proof {
                reveal_strlit("]");
                assert(items@.subrange(0, n as int) =~= items@);
                assert(out@ =~= old(out)@ + json_text(*v));
            }
        },
        Json::Obj(fields) => {
            out.append("{");
            let ghost opened = out@;
            proof {
                reveal_strlit("{");
            }
            let n = fields.len();
            let mut i: usize = 0;
            while i < n
                invariant
                    n == fields@.len(),
                    i <= n,
                    out@ == opened + obj_text(fields@.subrange(0, i as int)),
                    forall|k: int| 0 <= k < n ==> #[trigger] fields@[k] == fields[k],
                decreases n - i,
            {
                let ghost pre = fields@.subrange(0, i as int);
                let ghost pre1 = fields@.subrange(0, i as int + 1);
                proof {
                    assert(pre1.drop_last() =~= pre);
                    assert(pre1.last() == fields@[i as int]);
                }
                if i > 0 {
                    out.append(",");
                    proof {
                        reveal_strlit(",");
                    }
                }
                append_quoted(out, fields[i].0.as_str());
                out.append(":");
                proof {
                    reveal_strlit(":");
                    assert(decreases_to!(*v => fields@[i as int].1));
                }
                append_json(out, &fields[i].1);
                proof {
                    assert(out@ =~= opened + obj_text(pre1));
                }
                i += 1;
            }
            out.append("}");
            proof {
                reveal_strlit("}");
                assert(fields@.subrange(0, n as int) =~= fields@);
                assert(out@ =~= old(out)@ + json_text(*v));
            }
        },
    }
}

/// Renders `v` as this crate's JSON text.
pub fn json_to_string(v: &Json) -> (r: String)
    ensures
        r@ == json_text(*v),
{
    let mut out = String::new();
    append_json(&mut out, v);
    out
}

#[verifier::external_type_specification]
#[verifier::external_body]
pub struct ExValue(serde_json::Value);

/// What parsing a document text yields, carried over into [`Json`]:
/// `None` when the text is not JSON. A function of the text alone.
pub uninterp spec fn json_parse(s: Seq<char>) -> Option<Json>;

/// Relies on serde_json::Value: each variant is carried over one-to-one into
/// [`Json`]; a number keeps the text serde_json renders for it, and object
/// entries come in the order serde_json's map iterates them.
#[verifier::external_body]
fn json_of_value(v: &serde_json::Value) -> Json {
    match v {
        serde_json::Value::Null => Json::Null,
        serde_json::Value::Bool(b) => Json::Bool(*b),
        serde_json::Value::Number(n) => Json::Num(n.to_string()),
        serde_json::Value::String(s) => Json::Str(s.clone()),
        serde_json::Value::Array(a) => Json::Arr(a.iter().map(json_of_value).collect()),
        serde_json::Value::Object(m) => Json::Obj(
            m.iter().map(|(k, inner)| (k.clone(), json_of_value(inner))).collect(),
        ),
    }
}

/// Relies on serde_json::from_str::<serde_json::Value>: whether a text parses
/// as JSON, and the value it parses to, depend on the text alone.
#[verifier::external_body]
pub fn parse_json(s: &str) -> (r: Option<Json>)
    ensures
        r == json_parse(s@),
{
    match serde_json::from_str::<serde_json::Value>(s) {
        Ok(v) => Some(json_of_value(&v)),
        Err(_) => None,
    }
}

} // verus!
