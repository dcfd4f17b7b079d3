//! How values are written out, as text appended to a string.
use crate::parser::{value_models, Value};
use crate::semantics::{
    digit_char, digits, escape, escaped, print_line, render, render_int, render_items,
};
use vstd::prelude::*;
use vstd::string::*;

verus! {

/// Appends the digit `d`.
fn push_digit(out: &mut String, d: u64)
    requires
        d < 10,
    ensures
        final(out)@ == old(out)@.push(digit_char(d as int)),
{
    proof {
        reveal_strlit("0");
        reveal_strlit("1");
        reveal_strlit("2");
        reveal_strlit("3");
        reveal_strlit("4");
        reveal_strlit("5");
        reveal_strlit("6");
        reveal_strlit("7");
        reveal_strlit("8");
        reveal_strlit("9");
    }
    let text = if d == 0 {
        "0"
    } else if d == 1 {
        "1"
    } else if d == 2 {
        "2"
    } else if d == 3 {
        "3"
    } else if d == 4 {
        "4"
    } else if d == 5 {
        "5"
    } else if d == 6 {
        "6"
    } else if d == 7 {
        "7"
    } else if d == 8 {
        "8"
    } else {
        "9"
    };
    assert(text@ =~= seq![digit_char(d as int)]);
    out.append(text);
    assert(out@ =~= old(out)@.push(digit_char(d as int)));
}

/// Appends `n` in decimal.
pub fn push_digits(out: &mut String, n: u64)
    ensures
        final(out)@ == old(out)@ + digits(n as nat),
    decreases n,
{
    if n < 10 {
        push_digit(out, n);
        assert(out@ =~= old(out)@ + digits(n as nat));
    } else {
        push_digits(out, n / 10);
        push_digit(out, n % 10);
        assert(out@ =~= old(out)@ + digits(n as nat));
    }
}

/// Appends `n` in decimal, with `-` before it if it is negative.
pub fn push_int(out: &mut String, n: i32)
    ensures
        final(out)@ == old(out)@ + render_int(n as int),
{
    if n < 0 {
        proof {
            reveal_strlit("-");
        }
        out.append("-");
        let magnitude: u64 = (-(n as i64)) as u64;
        push_digits(out, magnitude);
        assert(out@ =~= old(out)@ + render_int(n as int));
    } else {
        push_digits(out, n as u64);
    }
}

/// Appends the characters of `s`, each as [`escape`] writes it.
pub fn push_escaped(out: &mut String, s: &str)
    ensures
        final(out)@ == old(out)@ + escaped(s@),
{
    let n = s.unicode_len();
    let mut i: usize = 0;
    assert(s@.take(0) =~= Seq::<char>::empty());
    assert(out@ =~= old(out)@ + escaped(s@.take(0)));
    while i < n
        invariant
            i <= n,
            n == s@.len(),
            out@ == old(out)@ + escaped(s@.take(i as int)),
        decreases n - i,
    {
        let c = s.get_char(i);
        let ghost before = out@;
        proof {
            reveal_strlit("\\\"");
            reveal_strlit("\\\\");
            reveal_strlit("\\n");
            reveal_strlit("\\r");
            reveal_strlit("\\t");
        }
        if c == '"' {
            out.append("\\\"");
            assert("\\\""@ =~= escape(c));
        } else if c == '\\' {
            out.append("\\\\");
            assert("\\\\"@ =~= escape(c));
        } else if c == '\n' {
            out.append("\\n");
            assert("\\n"@ =~= escape(c));
        } else if c == '\r' {
            out.append("\\r");
            assert("\\r"@ =~= escape(c));
        } else if c == '\t' {
            out.append("\\t");
            assert("\\t"@ =~= escape(c));
        } else {
            let one = s.substring_char(i, i + 1);
            assert(one@ =~= escape(c));
            out.append(one);
        }
        proof {
            let longer = s@.take(i + 1);
            assert(longer.drop_last() =~= s@.take(i as int));
            assert(longer.last() == c);
            assert(out@ =~= old(out)@ + escaped(longer));
        }
        i += 1;
    }
    assert(s@.take(n as int) =~= s@);
}

/// Appends `v` as [`render`] writes it.
pub fn push_value(out: &mut String, v: &Value)
    ensures
        final(out)@ == old(out)@ + render(v@),
{
    match v {
        Value::Int(n) => {
            out.append("Int(");
            push_int(out, *n);
            out.append(")");
            assert(out@ =~= old(out)@ + render(v@));
        },
        Value::Bool(b) => {
            if *b {
                out.append("Bool(true)");
            } else {
                out.append("Bool(false)");
            }
        },
        Value::String(s) => {
            out.append("String(\"");
            push_escaped(out, s.as_str());
            out.append("\")");
            assert(out@ =~= old(out)@ + render(v@));
        },
        Value::Identifier(s) => {
            out.append("Identifier(\"");
            push_escaped(out, s.as_str());
            out.append("\")");
            assert(out@ =~= old(out)@ + render(v@));
        },
        Value::Lambda(params, _, _) => {
            out.append("Lambda(");
            push_digits(out, params.len() as u64);
            out.append(")");
            assert(out@ =~= old(out)@ + render(v@));
        },
    }
}

/// Appends the line that `print` writes for `values`, see [`print_line`].
pub fn push_line(out: &mut String, values: &Vec<Value>)
    ensures
        final(out)@ == old(out)@ + print_line(value_models(values@)),
{
    out.append("[");
    let ghost models = value_models(values@);
    let ghost start = out@;
    let mut i: usize = 0;
    assert(models.take(0) =~= Seq::empty());
    assert(out@ =~= start + render_items(models.take(0)));
    while i < values.len()
        invariant
            i <= values.len(),
            models == value_models(values@),
            out@ == start + render_items(models.take(i as int)),
        decreases values.len() - i,
    {
        if i > 0 {
            out.append(", ");
        }
        push_value(out, &values[i]);
        proof {
            let longer = models.take(i + 1);
            assert(longer.drop_last() =~= models.take(i as int));
            assert(longer.last() == values[i as int]@);
            if i == 0 {
                assert(longer[0] == values[0]@);
                assert(render_items(models.take(0)) =~= Seq::<char>::empty());
            }
            assert(out@ =~= start + render_items(longer));
        }
        i += 1;
    }
    assert(models.take(values.len() as int) =~= models);
    out.append("]\n");
    assert(out@ =~= old(out)@ + print_line(models));
}

/// A value as text, see [`render`].
pub fn value_text(v: &Value) -> (r: String)
    ensures
        r@ == render(v@),
{
    let mut out = String::new();
    push_value(&mut out, v);
    assert(out@ =~= render(v@));
    out
}

} // verus!
