//! Rendering values as text.
//!
//! Interpolated accessor expressions stringify their results: strings
//! keep their characters, other values are written as JSON text.

use vstd::prelude::*;
use crate::value::{Value, Payload, Model, model_seq, model_entries, lemma_model_seq_len,
    lemma_model_seq_index, lemma_model_entries_len, lemma_model_entries_index};
use crate::text::{push_char, dec_int, dec_digits, i64_to_string};

verus! {

/// The four-bit hexadecimal digit for `d`.
pub open spec fn hex_digit_char(d: int) -> char {
    if d == 0 {
        '0'
    } else if d == 1 {
        '1'
    } else if d == 2 {
        '2'
    } else if d == 3 {
        '3'
    } else if d == 4 {
        '4'
    } else if d == 5 {
        '5'
    } else if d == 6 {
        '6'
    } else if d == 7 {
        '7'
    } else if d == 8 {
        '8'
    } else if d == 9 {
        '9'
    } else if d == 10 {
        'a'
    } else if d == 11 {
        'b'
    } else if d == 12 {
        'c'
    } else if d == 13 {
        'd'
    } else if d == 14 {
        'e'
    } else {
        'f'
    }
}

/// The writing of one character inside a JSON string literal: quotes
/// and backslashes are escaped, the common control characters get
/// their short escapes, every other control character its
/// `\u00..` escape.
pub open spec fn esc_char(c: char) -> Seq<char> {
    if c == '"' {
        seq!['\\', '"']
    } else if c == '\\' {
        seq!['\\', '\\']
    } else if c == '\n' {
        seq!['\\', 'n']
    } else if c == '\r' {
        seq!['\\', 'r']
    } else if c == '\t' {
        seq!['\\', 't']
    } else if (c as u32) < 32 {
        seq!['\\', 'u', '0', '0', hex_digit_char((c as u32) as int / 16), hex_digit_char(
            (c as u32) as int % 16,
        )]
    } else {
        seq![c]
    }
}

/// The writing of the first `i` characters of `s` inside a JSON string
/// literal.
pub open spec fn esc_prefix(s: Seq<char>, i: int) -> Seq<char>
    decreases i,
{
    if i <= 0 {
        Seq::empty()
    } else {
        esc_prefix(s, i - 1) + esc_char(s[i - 1])
    }
}

/// The writing of `s` inside a JSON string literal.
pub open spec fn json_escape(s: Seq<char>) -> Seq<char> {
    esc_prefix(s, s.len() as int)
}

/// The JSON writing of `m`.
pub open spec fn json_of(m: Model) -> Seq<char>
    decreases m, 0int, 0int,
{
    match m {
        Model::Null => seq!['n', 'u', 'l', 'l'],
        Model::Bool(b) => if b {
            seq!['t', 'r', 'u', 'e']
        } else {
            seq!['f', 'a', 'l', 's', 'e']
        },
        Model::Int(n) => dec_int(n),
        Model::Str(s) => seq!['"'] + json_escape(s) + seq!['"'],
        Model::Arr(items) => seq!['['] + json_items_prefix(items, items.len() as int) + seq![']'],
        Model::Obj(entries) => seq!['{'] + json_entries_prefix(entries, entries.len() as int)
            + seq!['}'],
    }
}

/// The comma-separated JSON writing of the first `i` items.
pub open spec fn json_items_prefix(items: Seq<Model>, i: int) -> Seq<char>
    decreases items, i, 1int,
{
    if i <= 0 || i > items.len() {
        Seq::empty()
    } else {
        json_items_prefix(items, i - 1) + (if i > 1 {
            seq![',']
        } else {
            Seq::empty()
        }) + json_of(items[i - 1])
    }
}

/// The comma-separated JSON writing of the first `i` entries.
pub open spec fn json_entries_prefix(entries: Seq<(Seq<char>, Model)>, i: int) -> Seq<char>
    decreases entries, i, 1int,
{
    if i <= 0 || i > entries.len() {
        Seq::empty()
    } else {
        json_entries_prefix(entries, i - 1) + (if i > 1 {
            seq![',']
        } else {
            Seq::empty()
        }) + seq!['"'] + json_escape(entries[i - 1].0) + seq!['"', ':'] + json_of(entries[i - 1].1)
    }
}

/// The text an interpolated expression writes for `m`: strings keep
/// their characters, any other value is written as JSON.
pub open spec fn render_of(m: Model) -> Seq<char> {
    match m {
        Model::Str(s) => s,
        _ => json_of(m),
    }
}

fn hex_digit(d: u32) -> (r: char)
    requires
        d < 16,
    ensures
        r == hex_digit_char(d as int),
{
    if d == 0 {
        '0'
    } else if d == 1 {
        '1'
    } else if d == 2 {
        '2'
    } else if d == 3 {
        '3'
    } else if d == 4 {
        '4'
    } else if d == 5 {
        '5'
    } else if d == 6 {
        '6'
    } else if d == 7 {
        '7'
    } else if d == 8 {
        '8'
    } else if d == 9 {
        '9'
    } else if d == 10 {
        'a'
    } else if d == 11 {
        'b'
    } else if d == 12 {
        'c'
    } else if d == 13 {
        'd'
    } else if d == 14 {
        'e'
    } else {
        'f'
    }
}

fn escape_into(out: &mut String, s: &str)
    ensures
        final(out)@ == old(out)@ + json_escape(s@),
{
    let len = s.unicode_len();
    let mut i: usize = 0;
    while i < len
        invariant
            i <= len,
            len == s@.len(),
            out@ == old(out)@ + esc_prefix(s@, i as int),
        decreases len - i,
    {
        let c = s.get_char(i);
        if c == '"' {
            push_char(out, '\\');
            push_char(out, '"');
        } else if c == '\\' {
            push_char(out, '\\');
            push_char(out, '\\');
        } else if c == '\n' {
            push_char(out, '\\');
            push_char(out, 'n');
        } else if c == '\r' {
            push_char(out, '\\');
            push_char(out, 'r');
        } else if c == '\t' {
            push_char(out, '\\');
            push_char(out, 't');
        } else if (c as u32) < 32 {
            push_char(out, '\\');
            push_char(out, 'u');
            push_char(out, '0');
            push_char(out, '0');
            push_char(out, hex_digit((c as u32) / 16));
            push_char(out, hex_digit((c as u32) % 16));
        } else {
            push_char(out, c);
        }
        proof {
            assert(out@ =~= old(out)@ + esc_prefix(s@, i + 1));
        }
        i = i + 1;
    }
}

/// The JSON writing of `v`, appended to `out`.
pub fn json_into(out: &mut String, v: &Value)
    ensures
        final(out)@ == old(out)@ + json_of(v.model()),
    decreases v,
{
    match v {
        Value::Null => {
            push_char(out, 'n');
            push_char(out, 'u');
            push_char(out, 'l');
            push_char(out, 'l');
            proof {
                assert(out@ =~= old(out)@ + json_of(v.model()));
            }
        },
        Value::Bool(b) => {
            if *b {
                push_char(out, 't');
                push_char(out, 'r');
                push_char(out, 'u');
                push_char(out, 'e');
            } else {
                push_char(out, 'f');
                push_char(out, 'a');
                push_char(out, 'l');
                push_char(out, 's');
                push_char(out, 'e');
            }
            proof {
                assert(out@ =~= old(out)@ + json_of(v.model()));
            }
        },
        Value::Int(n) => {
            let digits = i64_to_string(*n);
            out.append(digits.as_str());
        },
        Value::Str(s) => {
            push_char(out, '"');
            escape_into(out, s.as_str());
            push_char(out, '"');
            proof {
                assert(out@ =~= old(out)@ + json_of(v.model()));
            }
        },
        Value::Arr(items) => {
            proof {
                lemma_model_seq_len(items@);
            }
            push_char(out, '[');
            let n = items.len();
            let mut i: usize = 0;
            while i < n
                invariant
                    i <= n,
                    n == items@.len(),
                    *v == Value::Arr(*items),
                    model_seq(items@).len() == n,
                    out@ == old(out)@ + seq!['['] + json_items_prefix(
                        model_seq(items@),
                        i as int,
                    ),
                decreases n - i,
            {
                if i > 0 {
                    push_char(out, ',');
                }
                proof {
                    assert(decreases_to!(*v => v->Arr_0));
                    assert(decreases_to!(v->Arr_0 => v->Arr_0@));
                    assert(decreases_to!(v->Arr_0@ => v->Arr_0@[i as int]));
                    lemma_model_seq_index(items@, i as int);
                }
                json_into(out, &items[i]);
                proof {
                    assert(out@ =~= old(out)@ + seq!['['] + json_items_prefix(
                        model_seq(items@),
                        i + 1,
                    ));
                }
                i = i + 1;
            }
            push_char(out, ']');
            proof {
                assert(out@ =~= old(out)@ + json_of(v.model()));
            }
        },
        Value::Obj(p) => {
            proof {
                lemma_model_entries_len(p.entries@);
            }
            push_char(out, '{');
            let n = p.entries.len();
            let mut i: usize = 0;
            while i < n
                invariant
                    i <= n,
                    n == p.entries@.len(),
                    *v == Value::Obj(*p),
                    model_entries(p.entries@).len() == n,
                    out@ == old(out)@ + seq!['{'] + json_entries_prefix(
                        model_entries(p.entries@),
                        i as int,
                    ),
                decreases n - i,
            {
                if i > 0 {
                    push_char(out, ',');
                }
                push_char(out, '"');
                escape_into(out, p.entries[i].0.as_str());
                push_char(out, '"');
                push_char(out, ':');
                proof {
                    assert(decreases_to!(*v => v->Obj_0));
                    assert(decreases_to!(v->Obj_0 => v->Obj_0.entries));
                    assert(decreases_to!(v->Obj_0.entries => v->Obj_0.entries@));
                    assert(decreases_to!(v->Obj_0.entries@ => v->Obj_0.entries@[i as int]));
                    assert(decreases_to!(v->Obj_0.entries@[i as int] => v->Obj_0.entries@[i as int]
                        .1));
                    lemma_model_entries_index(p.entries@, i as int);
                }
                json_into(out, &p.entries[i].1);
                proof {
                    assert(out@ =~= old(out)@ + seq!['{'] + json_entries_prefix(
                        model_entries(p.entries@),
                        i + 1,
                    ));
                }
                i = i + 1;
            }
            push_char(out, '}');
            proof {
                assert(out@ =~= old(out)@ + json_of(v.model()));
            }
        },
    }
}

/// The JSON writing of `v`.
pub fn value_to_json(v: &Value) -> (r: String)
    ensures
        r@ == json_of(v.model()),
{
    let mut out = String::new();
    json_into(&mut out, v);
    proof {
        assert(out@ =~= json_of(v.model()));
    }
    out
}

/// The interpolation text of `v`: the characters themselves for a
/// string, the JSON writing otherwise.
pub fn value_to_text(v: &Value) -> (r: String)
    ensures
        r@ == render_of(v.model()),
{
    match v {
        Value::Str(s) => s.clone(),
        _ => value_to_json(v),
    }
}

} // verus!
