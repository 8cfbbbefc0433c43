use vstd::prelude::*;

use crate::cron_field::CronField;
use crate::cron_schedule::TaskScheduleCron;

verus! {

/// The character of a decimal digit.
pub open spec fn digit_char(d: int) -> char {
    if d == 0 {
        '0'
    } else if d == 1 {
        '1'
    } else if d == 2 {
        '2'
    } else if d == 3 {
        '3'
    } else if d == 4 {
        '4'
    } else if d == 5 {
        '5'
    } else if d == 6 {
        '6'
    } else if d == 7 {
        '7'
    } else if d == 8 {
        '8'
    } else {
        '9'
    }
}

/// The decimal writing of a natural number, without leading zeros.
pub open spec fn decimal_text(n: nat) -> Seq<char>
    decreases n,
{
    if n < 10 {
        seq![digit_char(n as int)]
    } else {
        decimal_text(n / 10) + seq![digit_char((n % 10) as int)]
    }
}

/// The number that a run of decimal digits stands for, each digit counting its distance from `0`.
pub open spec fn digits_value(s: Seq<char>) -> int
    decreases s.len(),
{
    if s.len() == 0 {
        0
    } else {
        digits_value(s.drop_last()) * 10 + (s.last() as int - '0' as int)
    }
}

/// The character of a digit is `0` moved up by the digit.
pub proof fn law_digit_chars(d: int)
    requires
        0 <= d < 10,
    ensures
        digit_char(d) as int == '0' as int + d,
{
}

/// The decimal writing of a number is a run of digits that reads back as the number.
pub proof fn law_decimal_text_reads_back(n: nat)
    ensures
        decimal_text(n).len() > 0,
        forall|i: int| 0 <= i < decimal_text(n).len() ==> '0' <= #[trigger] decimal_text(n)[i]
            <= '9',
        digits_value(decimal_text(n)) == n,
    decreases n,
{
    if n < 10 {
        law_digit_chars(n as int);
        assert(decimal_text(n).drop_last() =~= Seq::<char>::empty());
        assert(digits_value(Seq::<char>::empty()) == 0);
        assert(decimal_text(n).last() == digit_char(n as int));
    } else {
        law_decimal_text_reads_back(n / 10);
        law_digit_chars((n % 10) as int);
        let t = decimal_text(n);
        assert(t.drop_last() =~= decimal_text(n / 10));
        assert(t.last() == digit_char((n % 10) as int));
        assert(digits_value(t) == digits_value(decimal_text(n / 10)) * 10 + (n % 10));
        assert(n == (n / 10) * 10 + n % 10) by (nonlinear_arith);
    }
}

/// The decimal writing of an integer, with a leading `-` when it is negative.
pub open spec fn signed_text(v: int) -> Seq<char> {
    if v < 0 {
        seq!['-'] + decimal_text((-v) as nat)
    } else {
        decimal_text(v as nat)
    }
}

/// How a field is written: `*`, `5`, `1-5`, `?`, `L`, `L-` and the (negative) offset, the
/// weekday and `L`, the day and `W`, the weekday, `#` and the occurrence; a step as its base,
/// `-` and the step; a list as its items between brackets, separated by `, `.
pub open spec fn field_text(f: CronField) -> Seq<char>
    decreases f, 0nat,
{
    match f {
        CronField::Wildcard => seq!['*'],
        CronField::Exact(v) => decimal_text(v as nat),
        CronField::Range(a, b) => decimal_text(a as nat) + seq!['-'] + decimal_text(b as nat),
        CronField::Step(base, step) => field_text(*base) + seq!['-'] + decimal_text(step as nat),
        CronField::List(items) => seq!['['] + items_text(items, items.len() as nat) + seq![']'],
        CronField::Unspecified => seq!['?'],
        CronField::Last(Some(v)) => if v < 0 {
            seq!['L', '-'] + signed_text(v as int)
        } else if v > 0 {
            signed_text(v as int) + seq!['L']
        } else {
            seq!['L']
        },
        CronField::Last(None) => seq!['L'],
        CronField::NearestWeekday(v) => decimal_text(v as nat) + seq!['W'],
        CronField::NthWeekday(a, b) => decimal_text(a as nat) + seq!['#'] + decimal_text(b as nat),
    }
}

/// The first `n` items of a list, separated by `, `.
pub open spec fn items_text(items: Vec<CronField>, n: nat) -> Seq<char>
    decreases items, n,
{
    if n == 0 || n > items.len() {
        seq![]
    } else if n == 1 {
        field_text(items[0])
    } else {
        items_text(items, (n - 1) as nat) + seq![',', ' '] + field_text(items[n - 1])
    }
}

/// How a schedule is written: its seven fields separated by spaces.
pub open spec fn schedule_text(c: TaskScheduleCron) -> Seq<char> {
    field_text(c.seconds_field()) + seq![' '] + field_text(c.minute_field()) + seq![' ']
        + field_text(c.hour_field()) + seq![' '] + field_text(c.day_of_month_field()) + seq![' ']
        + field_text(c.month_field()) + seq![' '] + field_text(c.day_of_week_field()) + seq![' ']
        + field_text(c.year_field())
}

/// Appends a literal to the text.
fn append_literal(out: &mut String, lit: &str)
    ensures
        final(out)@ == old(out)@ + lit@,
{
    out.append(lit);
}

/// Appends the digit `d` (below 10).
fn append_digit(out: &mut String, d: u32)
    requires
        d < 10,
    ensures
        final(out)@ == old(out)@ + seq![digit_char(d as int)],
{
    proof {
        reveal_strlit("0");
        reveal_strlit("1");
        reveal_strlit("2");
        reveal_strlit("3");
        reveal_strlit("4");
        reveal_strlit("5");
        reveal_strlit("6");
        reveal_strlit("7");
        reveal_strlit("8");
        reveal_strlit("9");
    }
    let lit = if d == 0 {
        "0"
    } else if d == 1 {
        "1"
    } else if d == 2 {
        "2"
    } else if d == 3 {
        "3"
    } else if d == 4 {
        "4"
    } else if d == 5 {
        "5"
    } else if d == 6 {
        "6"
    } else if d == 7 {
        "7"
    } else if d == 8 {
        "8"
    } else {
        "9"
    };
    append_literal(out, lit);
}

/// Appends the decimal writing of `n`.
fn append_decimal(out: &mut String, n: u32)
    ensures
        final(out)@ == old(out)@ + decimal_text(n as nat),
    decreases n,
{
    if n >= 10 {
        append_decimal(out, n / 10);
        append_digit(out, n % 10);
        proof {
            assert(decimal_text(n as nat) == decimal_text((n / 10) as nat) + seq![
                digit_char((n % 10) as int),
            ]);
        }
        assert(out@ =~= old(out)@ + decimal_text(n as nat));
    } else {
        append_digit(out, n);
    }
}

/// Appends the decimal writing of `v`, with a leading `-` when it is negative.
fn append_signed(out: &mut String, v: i8)
    ensures
        final(out)@ == old(out)@ + signed_text(v as int),
{
    proof {
        reveal_strlit("-");
    }
    if v < 0 {
        append_literal(out, "-");
        let magnitude: u32 = (0i32 - v as i32) as u32;
        append_decimal(out, magnitude);
        assert(out@ =~= old(out)@ + signed_text(v as int));
    } else {
        append_decimal(out, v as u32);
    }
}

/// Appends the writing of a field (see `field_text`).
fn append_field(out: &mut String, f: &CronField)
    ensures
        final(out)@ == old(out)@ + field_text(*f),
    decreases f,
{
    proof {
        reveal_strlit("*");
        reveal_strlit("-");
        reveal_strlit("[");
        reveal_strlit("]");
        reveal_strlit(", ");
        reveal_strlit("?");
        reveal_strlit("L");
        reveal_strlit("L-");
        reveal_strlit("W");
        reveal_strlit("#");
    }
    let ghost start = out@;
    match f {
        CronField::Wildcard => append_literal(out, "*"),
        CronField::Exact(v) => append_decimal(out, *v),
        CronField::Range(a, b) => {
            append_decimal(out, *a);
            append_literal(out, "-");
            append_decimal(out, *b);
        },
        CronField::Step(base, step) => {
            append_field(out, base);
            append_literal(out, "-");
            append_decimal(out, *step);
        },
        CronField::List(items) => {
            append_literal(out, "[");
            let ghost open = out@;
            let mut i: usize = 0;
            while i < items.len()
                invariant
                    i <= items.len(),
                    *f == CronField::List(*items),
                    out@ == open + items_text(*items, i as nat),
                decreases items.len() - i,
            {
                proof {
                    crate::cron_field::lemma_item_smaller(*f, i as int);
                    reveal_strlit(", ");
                }
                if i > 0 {
                    append_literal(out, ", ");
                }
                append_field(out, &items[i]);
                proof {
                    if i == 0 {
                        assert(out@ =~= open + items_text(*items, 1));
                    } else {
                        assert(items_text(*items, (i + 1) as nat) == items_text(*items, i as nat)
                            + seq![',', ' '] + field_text(items@[i as int]));
                        assert(out@ =~= open + items_text(*items, (i + 1) as nat));
                    }
                }
                i += 1;
            }
            append_literal(out, "]");
        },
        CronField::Unspecified => append_literal(out, "?"),
        CronField::Last(Some(v)) => {
            if *v < 0 {
                append_literal(out, "L-");
                append_signed(out, *v);
            } else if *v > 0 {
                append_signed(out, *v);
                append_literal(out, "L");
            } else {
                append_literal(out, "L");
            }
        },
        CronField::Last(None) => append_literal(out, "L"),
        CronField::NearestWeekday(v) => {
            append_decimal(out, *v);
            append_literal(out, "W");
        },
        CronField::NthWeekday(a, b) => {
            append_decimal(out, *a);
            append_literal(out, "#");
            append_decimal(out, *b);
        },
    }
    assert(out@ =~= start + field_text(*f));
}

impl CronField {
    /// How the field is written (see `field_text`).
    pub fn to_string(&self) -> (r: String)
        ensures
            r@ == field_text(*self),
    {
        let mut out = String::new();
        append_field(&mut out, self);
        assert(out@ =~= field_text(*self));
        out
    }
}

impl TaskScheduleCron {
    /// How the schedule is written: its seven fields separated by spaces.
    pub fn to_string(&self) -> (r: String)
        ensures
            r@ == schedule_text(*self),
    {
        proof {
            reveal_strlit(" ");
        }
        let fields = self.fields();
        let mut out = String::new();
        append_field(&mut out, fields[0]);
        append_literal(&mut out, " ");
        append_field(&mut out, fields[1]);
        append_literal(&mut out, " ");
        append_field(&mut out, fields[2]);
        append_literal(&mut out, " ");
        append_field(&mut out, fields[3]);
        append_literal(&mut out, " ");
        append_field(&mut out, fields[4]);
        append_literal(&mut out, " ");
        append_field(&mut out, fields[5]);
        append_literal(&mut out, " ");
        append_field(&mut out, fields[6]);
        assert(out@ =~= schedule_text(*self));
        out
    }
}

} // verus!
