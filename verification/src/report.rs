//! The snapshot reporter: renders the final account states as rows of text.
//!
//! Amounts are stored at four fractional digits, so presentation needs no
//! arithmetic rounding: a balance is printed as its exact decimal value,
//! with trailing fractional zeros (and an all-zero fraction) left off, so
//! a whole balance prints bare. Rows come out in ascending
//! client order, one per account, under the header line.

use vstd::prelude::*;
use vstd::string::StrSliceExecFns;
use vstd::string::StringExecFns;

use crate::account::Account;
use crate::account::AccountView;
use crate::bank::Bank;
use crate::amount::UNITS_PER_WHOLE;

verus! {

broadcast use vstd::string::group_string_axioms;

/// The character of a decimal digit value.
pub open spec fn digit_char(d: int) -> char {
    if d == 0 {
        '0'
    } else if d == 1 {
        '1'
    } else if d == 2 {
        '2'
    } else if d == 3 {
        '3'
    } else if d == 4 {
        '4'
    } else if d == 5 {
        '5'
    } else if d == 6 {
        '6'
    } else if d == 7 {
        '7'
    } else if d == 8 {
        '8'
    } else {
        '9'
    }
}

/// The decimal digits of `n`, most significant first, no leading zeros
/// (a single `0` for zero).
pub open spec fn spec_digits(n: nat) -> Seq<char>
    decreases n,
{
    if n < 10 {
        seq![digit_char(n as int)]
    } else {
        spec_digits(n / 10) + seq![digit_char((n % 10) as int)]
    }
}

/// The four digits of a fractional part `f < 10000`, zero-padded.
pub open spec fn spec_pad4(f: int) -> Seq<char> {
    seq![
        digit_char(f / 1000 % 10),
        digit_char(f / 100 % 10),
        digit_char(f / 10 % 10),
        digit_char(f % 10),
    ]
}

/// `s` without its trailing zero digits.
pub open spec fn strip_zeros(s: Seq<char>) -> Seq<char>
    decreases s.len(),
{
    if s.len() > 0 && s.last() == '0' {
        strip_zeros(s.drop_last())
    } else {
        s
    }
}

/// The decimal rendering of a balance of `u` 1/10000 units: an optional
/// sign, the whole part, and — only when the fraction is non-zero — a `.`
/// and the fraction with trailing zeros left off.
pub open spec fn spec_render_units(u: int) -> Seq<char> {
    let mag = if u < 0 {
        -u
    } else {
        u
    };
    let sign: Seq<char> = if u < 0 {
        seq!['-']
    } else {
        Seq::empty()
    };
    let whole = mag / (UNITS_PER_WHOLE as int);
    let frac = mag % (UNITS_PER_WHOLE as int);
    let frac_part: Seq<char> = if frac == 0 {
        Seq::empty()
    } else {
        seq!['.'] + strip_zeros(spec_pad4(frac))
    };
    sign + spec_digits(mag as nat / (UNITS_PER_WHOLE as nat)) + frac_part
}

/// The digit character of a value below ten.
fn digit_str(d: u128) -> (r: &'static str)
    requires
        d < 10,
    ensures
        r@ =~= seq![digit_char(d as int)],
{
    let r: &'static str = if d == 0 {
        "0"
    } else if d == 1 {
        "1"
    } else if d == 2 {
        "2"
    } else if d == 3 {
        "3"
    } else if d == 4 {
        "4"
    } else if d == 5 {
        "5"
    } else if d == 6 {
        "6"
    } else if d == 7 {
        "7"
    } else if d == 8 {
        "8"
    } else {
        "9"
    };
    proof {
        reveal_strlit("0");
        reveal_strlit("1");
        reveal_strlit("2");
        reveal_strlit("3");
        reveal_strlit("4");
        reveal_strlit("5");
        reveal_strlit("6");
        reveal_strlit("7");
        reveal_strlit("8");
        reveal_strlit("9");
    }
    r
}

/// Appends the decimal digits of `n` to `out`.
fn push_digits(n: u128, out: &mut String)
    ensures
        final(out)@ == old(out)@ + spec_digits(n as nat),
    decreases n,
{
    if n >= 10 {
        push_digits(n / 10, out);
    }
    out.append(digit_str(n % 10));
    proof {
        if n >= 10 {
            assert(old(out)@ + spec_digits(n as nat / 10) + seq![digit_char((n as nat % 10) as int)]
                =~= old(out)@ + (spec_digits(n as nat / 10) + seq![
                    digit_char((n as nat % 10) as int),
                ]));
        }
    }
}

/// Renders a balance of `u` 1/10000 units as its exact decimal value, as
/// [`spec_render_units`] says.
pub fn render_units(u: i128) -> (s: String)
    ensures
        s@ == spec_render_units(u as int),
{
    let mag: u128 = if u >= 0 {
        u as u128
    } else {
        (-(u + 1)) as u128 + 1
    };
    let mut out = String::new();
    if u < 0 {
        out.append("-");
        proof {
            reveal_strlit("-");
            assert("-"@ =~= seq!['-']);
        }
    }
    let whole = mag / (UNITS_PER_WHOLE as u128);
    let frac = mag % (UNITS_PER_WHOLE as u128);
    push_digits(whole, &mut out);
    if frac > 0 {
        out.append(".");
        proof {
            reveal_strlit(".");
            assert("."@ =~= seq!['.']);
        }
        let ghost padded = spec_pad4(frac as int);
        let d1 = (frac / 1000 % 10) as u128;
        let d2 = (frac / 100 % 10) as u128;
        let d3 = (frac / 10 % 10) as u128;
        let d4 = (frac % 10) as u128;
        out.append(digit_str(d1));
        if d2 != 0 || d3 != 0 || d4 != 0 {
            out.append(digit_str(d2));
        }
        if d3 != 0 || d4 != 0 {
            out.append(digit_str(d3));
        }
        if d4 != 0 {
            out.append(digit_str(d4));
        }
        proof {
            assert(padded.drop_last() =~= seq![
                digit_char(d1 as int),
                digit_char(d2 as int),
                digit_char(d3 as int),
            ]);
            assert(padded.drop_last().drop_last() =~= seq![
                digit_char(d1 as int),
                digit_char(d2 as int),
            ]);
            assert(padded.drop_last().drop_last().drop_last() =~= seq![digit_char(d1 as int)]);
            if d4 != 0 {
                assert(strip_zeros(padded) == padded);
            } else {
                assert(strip_zeros(padded) == strip_zeros(padded.drop_last()));
                if d3 != 0 {
                    assert(strip_zeros(padded.drop_last()) == padded.drop_last());
                } else {
                    assert(strip_zeros(padded.drop_last()) == strip_zeros(
                        padded.drop_last().drop_last(),
                    ));
                    if d2 != 0 {
                        assert(strip_zeros(padded.drop_last().drop_last())
                            == padded.drop_last().drop_last());
                    } else {
                        assert(d1 != 0);
                        assert(strip_zeros(padded.drop_last().drop_last()) == strip_zeros(
                            padded.drop_last().drop_last().drop_last(),
                        ));
                        assert(strip_zeros(padded.drop_last().drop_last().drop_last())
                            == padded.drop_last().drop_last().drop_last());
                    }
                }
            }
            assert(out@ =~= spec_render_units(u as int));
        }
    } else {
        proof {
            assert(out@ =~= spec_render_units(u as int));
        }
    }
    out
}

/// The report line of one account: client, available, held, total and the
/// locked flag, comma-separated, newline-terminated.
pub open spec fn spec_row(v: AccountView) -> Seq<char> {
    spec_digits(v.client_id as nat) + ", "@ + spec_render_units(v.available) + ", "@
        + spec_render_units(v.held) + ", "@ + spec_render_units(v.total()) + ", "@ + (if v.locked {
        "true"@
    } else {
        "false"@
    }) + "\n"@
}

/// The report lines of every account with a client id of at least `next`,
/// in ascending client order.
pub open spec fn spec_rows_from(m: Map<u16, AccountView>, next: int) -> Seq<char>
    decreases u16::MAX + 1 - next,
{
    if next > u16::MAX {
        Seq::empty()
    } else {
        let rest = spec_rows_from(m, next + 1);
        if m.contains_key(next as u16) {
            spec_row(m[next as u16]) + rest
        } else {
            rest
        }
    }
}

/// The whole snapshot: the header line, then one line per account, sorted
/// ascending by client id.
pub open spec fn spec_report(m: Map<u16, AccountView>) -> Seq<char> {
    "client, available, held, total, locked\n"@ + spec_rows_from(m, 0)
}

impl Account {
    /// Renders this account's report line, as [`spec_row`] says.
    pub fn render_row(&self) -> (s: String)
        requires
            self.wf(),
        ensures
            s@ == spec_row(self@),
    {
        let mut out = String::new();
        push_digits(self.client_id() as u128, &mut out);
        out.append(", ");
        let available = render_units(self.available());
        out.append(available.as_str());
        out.append(", ");
        let held = render_units(self.held());
        out.append(held.as_str());
        out.append(", ");
        let total = render_units(self.get_total());
        out.append(total.as_str());
        out.append(", ");
        if self.locked() {
            out.append("true");
        } else {
            out.append("false");
        }
        out.append("\n");
        proof {
            assert(out@ =~= spec_row(self@));
        }
        out
    }
}

impl Bank {
    /// Renders the final snapshot of every account, sorted ascending by
    /// client id, under the header line, as [`spec_report`] says.
    pub fn report(&self) -> (s: String)
        requires
            self.wf(),
        ensures
            s@ == spec_report(self@),
    {
        let mut out = String::from_str("client, available, held, total, locked\n");
        let mut next: u32 = 0;
        while next <= u16::MAX as u32
            invariant
                next <= u16::MAX as u32 + 1,
                self.wf(),
                out@ + spec_rows_from(self@, next as int) == spec_report(self@),
            decreases u16::MAX as u32 + 1 - next,
        {
            match self.get_account(next as u16) {
                Some(account) => {
                    let row = account.render_row();
                    out.append(row.as_str());
                    proof {
                        assert(out@ + spec_rows_from(self@, next as int + 1) =~= spec_report(
                            self@,
                        ));
                    }
                },
                None => {},
            }
            next += 1;
        }
        out
    }
}

} // verus!
