//! Parsing the textual command script back into operations. Together with
//! the compiler this closes the round trip: the script compiled from a
//! sequence parses back to exactly that sequence, so replaying the compiled
//! input through the reference model reproduces the expected trace.
use vstd::prelude::*;

use crate::compile::{expect_of, lit_expect_quit, op_script_line, script_of};
use crate::heap::{dec_digits, dec_i16};
use crate::ops::{replay_trace, Operation};

verus! {

/// Index of the first newline in `s`, or `-1` when there is none.
pub open spec fn find_nl(s: Seq<u8>) -> int
    decreases s.len(),
{
    if s.len() == 0 {
        -1
    } else if s[0] == 10 {
        0
    } else {
        let r = find_nl(s.drop_first());
        if r < 0 {
            -1
        } else {
            r + 1
        }
    }
}

/// Every byte is an ASCII decimal digit.
pub open spec fn all_digits(ds: Seq<u8>) -> bool {
    forall|i: int| 0 <= i < ds.len() ==> 48 <= #[trigger] ds[i] <= 57
}

/// Numeric value of a digit string, most significant digit first.
pub open spec fn digits_val(ds: Seq<u8>) -> nat
    decreases ds.len(),
{
    if ds.len() == 0 {
        0
    } else {
        digits_val(ds.drop_last()) * 10 + (ds.last() - 48) as nat
    }
}

/// The signed 16-bit value a byte string denotes: an optional leading minus,
/// then at least one digit, within the representable range.
pub open spec fn parse_i16_bytes(ds: Seq<u8>) -> Option<i16> {
    if ds.len() > 0 && ds[0] == 45 {
        let m = ds.drop_first();
        if m.len() > 0 && all_digits(m) && digits_val(m) <= 32768 {
            Some((-(digits_val(m) as int)) as i16)
        } else {
            None
        }
    } else if ds.len() > 0 && all_digits(ds) && digits_val(ds) <= 32767 {
        Some(digits_val(ds) as int as i16)
    } else {
        None
    }
}

/// The operations a command script denotes: `i <value>` and `r` lines up to
/// the terminating `q` line; anything else fails the parse.
pub open spec fn parse_script_spec(s: Seq<u8>) -> Option<Seq<Operation>>
    decreases s.len(),
{
    if s.len() >= 2 && s[0] == 113 && s[1] == 10 {
        Some(Seq::empty())
    } else if s.len() >= 2 && s[0] == 114 && s[1] == 10 {
        match parse_script_spec(s.skip(2)) {
            Some(t) => Some(seq![Operation::Pop] + t),
            None => None,
        }
    } else if s.len() >= 2 && s[0] == 105 && s[1] == 32 {
        let rest = s.skip(2);
        let k = find_nl(rest);
        if 0 < k && k + 1 <= rest.len() {
            match parse_i16_bytes(rest.take(k)) {
                Some(v) => match parse_script_spec(rest.skip(k + 1)) {
                    Some(t) => Some(seq![Operation::Push(v)] + t),
                    None => None,
                },
                None => None,
            }
        } else {
            None
        }
    } else {
        None
    }
}

proof fn lemma_digits_are_digits(n: nat)
    ensures
        all_digits(dec_digits(n)),
        dec_digits(n).len() > 0,
    decreases n,
{
    if n >= 10 {
        lemma_digits_are_digits(n / 10);
        assert forall|i: int| 0 <= i < dec_digits(n).len() implies 48 <= #[trigger] dec_digits(
            n,
        )[i] <= 57 by {
            if i < dec_digits(n / 10).len() {
                assert(dec_digits(n)[i] == dec_digits(n / 10)[i]);
            }
        }
    }
}

proof fn lemma_digits_val_inverse(n: nat)
    ensures
        digits_val(dec_digits(n)) == n,
    decreases n,
{
    if n < 10 {
        assert((48 + n) as u8 == 48 + n);
        assert(dec_digits(n) =~= seq![(48 + n) as u8]);
        assert(dec_digits(n).drop_last() =~= Seq::<u8>::empty());
        assert(digits_val(Seq::<u8>::empty()) == 0);
        assert(dec_digits(n).last() == 48 + n);
        assert(digits_val(dec_digits(n)) == 0 * 10 + n);
    } else {
        lemma_digits_val_inverse(n / 10);
        let d = dec_digits(n);
        assert(d.drop_last() =~= dec_digits(n / 10));
        assert((48 + n % 10) as u8 == 48 + n % 10);
        assert(d.last() == (48 + n % 10) as u8);
        assert(digits_val(d) == (n / 10) * 10 + n % 10);
        assert((n / 10) * 10 + n % 10 == n) by (nonlinear_arith);
    }
}

proof fn lemma_parse_dec_inverse(v: i16)
    ensures
        parse_i16_bytes(dec_i16(v)) == Some(v),
        dec_i16(v).len() > 0,
        forall|i: int| 0 <= i < dec_i16(v).len() ==> #[trigger] dec_i16(v)[i] != 10,
{
    if v < 0 {
        let m = (-(v as int)) as nat;
        lemma_digits_are_digits(m);
        lemma_digits_val_inverse(m);
        let ds = dec_i16(v);
        assert(ds[0] == 45);
        assert(ds.drop_first() =~= dec_digits(m));
        assert(m <= 32768);
        assert((-(digits_val(dec_digits(m)) as int)) as i16 == v);
    } else {
        let n = v as nat;
        lemma_digits_are_digits(n);
        lemma_digits_val_inverse(n);
        assert(dec_i16(v)[0] != 45 && dec_i16(v)[0] != 10);
        assert(n <= 32767);
        assert(digits_val(dec_digits(n)) as int as i16 == v);
    }
}

proof fn lemma_find_nl_prefix(a: Seq<u8>, b: Seq<u8>)
    requires
        forall|i: int| 0 <= i < a.len() ==> #[trigger] a[i] != 10,
        b.len() > 0,
        b[0] == 10,
    ensures
        find_nl(a + b) == a.len(),
    decreases a.len(),
{
    if a.len() == 0 {
        assert(a + b =~= b);
    } else {
        assert((a + b)[0] == a[0]);
        assert((a + b).drop_first() =~= a.drop_first() + b);
        lemma_find_nl_prefix(a.drop_first(), b);
    }
}

proof fn lemma_find_nl_none(s: Seq<u8>)
    requires
        forall|i: int| 0 <= i < s.len() ==> #[trigger] s[i] != 10,
    ensures
        find_nl(s) == -1,
    decreases s.len(),
{
    if s.len() > 0 {
        assert(s.drop_first() =~= s.skip(1));
        lemma_find_nl_none(s.drop_first());
    }
}

/// Parses the decimal field `script[start..end]`, exactly as
/// `parse_i16_bytes` denotes it.
#[verifier::loop_isolation(false)]
#[verifier::rlimit(50)]
fn parse_i16_field(script: &Vec<u8>, start: usize, end: usize) -> (r: Option<i16>)
    requires
        start <= end <= script@.len(),
    ensures
        r == parse_i16_bytes(script@.subrange(start as int, end as int)),
{
    let ghost ds = script@.subrange(start as int, end as int);
    if start == end {
        proof {
            assert(parse_i16_bytes(ds) is None);
        }
        return None;
    }
    let neg = script[start] == 45;
    let dstart = if neg {
        start + 1
    } else {
        start
    };
    let ghost digits = script@.subrange(dstart as int, end as int);
    proof {
        if neg {
            assert(ds[0] == 45);
            assert(ds.drop_first() =~= digits);
        } else {
            assert(ds =~= digits);
            assert(ds[0] != 45);
        }
    }
    if dstart == end {
        proof {
            assert(parse_i16_bytes(ds) is None);
        }
        return None;
    }
    let mut q = dstart;
    let mut val: u32 = 0;
    let mut over = false;
    while q < end
        invariant
            dstart <= q <= end,
            forall|j: int| dstart <= j < q ==> 48 <= #[trigger] script@[j] <= 57,
            !over ==> val as nat == digits_val(script@.subrange(dstart as int, q as int)) && val
                <= 32768,
            over ==> digits_val(script@.subrange(dstart as int, q as int)) > 32768,
        decreases end - q,
    {
        let d = script[q];
        if d < 48 || d > 57 {
            proof {
                let bad: int = q as int - dstart as int;
                assert(digits[bad] == d);
                assert(!all_digits(digits));
                assert(parse_i16_bytes(ds) is None);
            }
            return None;
        }
        let ghost prefix = script@.subrange(dstart as int, q as int);
        let ghost prefix1 = script@.subrange(dstart as int, q as int + 1);
        proof {
            assert(prefix1.drop_last() =~= prefix);
            assert(prefix1.last() == d);
            assert(digits_val(prefix1) == digits_val(prefix) * 10 + (d - 48) as nat);
        }
        if over {
            proof {
                assert(digits_val(prefix) * 10 >= digits_val(prefix)) by (nonlinear_arith);
            }
        } else {
            val = val * 10 + (d - 48) as u32;
            if val > 32768 {
                over = true;
            }
        }
        q = q + 1;
    }
    proof {
        assert(script@.subrange(dstart as int, q as int) =~= digits);
        assert(all_digits(digits));
        assert(digits.len() > 0);
    }
    if over {
        proof {
            assert(parse_i16_bytes(ds) is None);
        }
        return None;
    }
    if !neg && val > 32767 {
        proof {
            assert(parse_i16_bytes(ds) is None);
        }
        return None;
    }
    let v: i16 = if neg {
        (-(val as i32)) as i16
    } else {
        val as i16
    };
    proof {
        assert(parse_i16_bytes(ds) == Some(v));
    }
    Some(v)
}

/// Parses a command script, returning the operations exactly when the
/// script is well formed in the sense of `parse_script_spec`.
#[verifier::loop_isolation(false)]
#[verifier::rlimit(80)]
pub fn parse_script(script: &Vec<u8>) -> (r: Option<Vec<Operation>>)
    ensures
        r is Some <==> parse_script_spec(script@) is Some,
        r matches Some(v) ==> parse_script_spec(script@) == Some(v@),
{
    let mut acc: Vec<Operation> = Vec::new();
    let mut pos: usize = 0;
    proof {
        assert(script@.skip(0) =~= script@);
        if parse_script_spec(script@) is Some {
            assert(Seq::<Operation>::empty() + parse_script_spec(script@)->Some_0 =~=
                parse_script_spec(script@)->Some_0);
        }
    }
    loop
        invariant
            pos <= script.len(),
            parse_script_spec(script@) == (match parse_script_spec(script@.skip(pos as int)) {
                Some(t) => Some(acc@ + t),
                None => None::<Seq<Operation>>,
            }),
        decreases script.len() - pos,
    {
        let ghost suffix = script@.skip(pos as int);
        if script.len() < 2 || pos > script.len() - 2 {
            proof {
                assert(suffix.len() < 2);
                assert(parse_script_spec(suffix) is None);
            }
            return None;
        }
        let b0 = script[pos];
        let b1 = script[pos + 1];
        proof {
            assert(suffix[0] == b0 && suffix[1] == b1);
        }
        if b0 == 113 && b1 == 10 {
            proof {
                assert(parse_script_spec(suffix) == Some(Seq::<Operation>::empty()));
                assert(acc@ + Seq::<Operation>::empty() =~= acc@);
            }
            return Some(acc);
        } else if b0 == 114 && b1 == 10 {
            acc.push(Operation::Pop);
            pos = pos + 2;
            proof {
                assert(script@.skip(pos as int) =~= suffix.skip(2));
                match parse_script_spec(suffix.skip(2)) {
                    Some(t) => {
                        assert(parse_script_spec(suffix) == Some(seq![Operation::Pop] + t));
                        assert(acc@ + t =~= acc@.drop_last() + (seq![Operation::Pop] + t));
                    },
                    None => {
                        assert(parse_script_spec(suffix) is None);
                    },
                }
            }
        } else if b0 == 105 && b1 == 32 {
            let ghost rest = suffix.skip(2);
            let pos2 = pos + 2;
            let mut k = pos2;
            while k < script.len() && script[k] != 10
                invariant
                    pos2 <= k <= script.len(),
                    forall|j: int| pos2 <= j < k ==> #[trigger] script@[j] != 10,
                decreases script.len() - k,
            {
                k = k + 1;
            }
            let ghost ds = script@.subrange(pos2 as int, k as int);
            if k == script.len() {
                proof {
                    assert(rest =~= ds);
                    lemma_find_nl_none(rest);
                    assert(parse_script_spec(suffix) is None);
                }
                return None;
            }
            proof {
                assert(script@[k as int] == 10);
                assert(rest =~= ds + script@.skip(k as int));
                lemma_find_nl_prefix(ds, script@.skip(k as int));
                assert(find_nl(rest) == k - pos2);
                assert(rest.take(k - pos2) =~= ds);
            }
            if k == pos2 {
                proof {
                    assert(parse_script_spec(suffix) is None);
                }
                return None;
            }
            match parse_i16_field(script, pos2, k) {
                None => {
                    proof {
                        assert(parse_script_spec(suffix) is None);
                    }
                    return None;
                },
                Some(v) => {
                    acc.push(Operation::Push(v));
                    pos = k + 1;
                    proof {
                        assert(script@.skip(pos as int) =~= rest.skip(k - pos2 + 1));
                        match parse_script_spec(rest.skip(k - pos2 + 1)) {
                            Some(t) => {
                                assert(parse_script_spec(suffix) == Some(
                                    seq![Operation::Push(v)] + t,
                                ));
                                assert(acc@ + t =~= acc@.drop_last() + (seq![Operation::Push(v)]
                                    + t));
                            },
                            None => {
                                assert(parse_script_spec(suffix) is None);
                            },
                        }
                    }
                },
            }
        } else {
            proof {
                assert(parse_script_spec(suffix) is None);
            }
            return None;
        }
    }
}

/// The round trip: the command script compiled from any operation sequence
/// parses back to exactly that sequence, so a second replay of the compiled
/// input through the reference model reproduces the compiled expected trace.
pub proof fn lemma_script_round_trip(ops: Seq<Operation>)
    ensures
        parse_script_spec(script_of(ops)) == Some(ops),
        replay_trace(Seq::<i16>::empty(), parse_script_spec(script_of(ops))->Some_0)
            + lit_expect_quit() == expect_of(ops),
    decreases ops.len(),
{
    let s = script_of(ops);
    if ops.len() == 0 {
        assert(s == seq![113u8, 10u8]);
        assert(parse_script_spec(s) == Some(Seq::<Operation>::empty()));
        assert(Seq::<Operation>::empty() =~= ops);
    } else {
        let rest = ops.drop_first();
        lemma_script_round_trip(rest);
        match ops[0] {
            Operation::Pop => {
                assert(s == seq![114u8, 10u8] + script_of(rest));
                assert(s[0] == 114 && s[1] == 10);
                assert(s.skip(2) =~= script_of(rest));
                assert(seq![Operation::Pop] + rest =~= ops);
            },
            Operation::Push(v) => {
                lemma_parse_dec_inverse(v);
                let line = op_script_line(ops[0]);
                assert(line == seq![105u8, 32u8] + dec_i16(v) + seq![10u8]);
                assert(s == line + script_of(rest));
                assert(s[0] == 105 && s[1] == 32);
                let tail = s.skip(2);
                let after = seq![10u8] + script_of(rest);
                assert(tail =~= dec_i16(v) + after);
                lemma_find_nl_prefix(dec_i16(v), after);
                let k = dec_i16(v).len() as int;
                assert(find_nl(tail) == k);
                assert(0 < k && k + 1 <= tail.len());
                assert(tail.take(k) =~= dec_i16(v));
                assert(tail.skip(k + 1) =~= script_of(rest));
                assert(seq![Operation::Push(v)] + rest =~= ops);
            },
        }
    }
}

} // verus!
