//! The query broker's textual side: finding the addressed base and
//! preparing the SQL script text.
//!
//! A script may carry positional placeholders `$1`, `$2`, … which are
//! substituted textually with the caller's parameters, once, before the
//! text goes to the backend.  A placeholder is a `$` followed by a run of
//! digits; it is replaced only when the run has no leading zero and names
//! an existing parameter, and is copied through untouched otherwise.  The
//! caller addressing the reserved name `default_dbs` is redirected to the
//! user's own synthesized default base.

use vstd::prelude::*;
use crate::SrvError;
use crate::auth::User;
use crate::base::{Base, default_base_name_spec, has_base_named, find_base};
use crate::utils::{str_eq, str_to_chars, chars_to_string};

verus! {

/// A decimal digit, by its scalar value.
pub open spec fn is_digit(c: char) -> bool {
    48 <= c as u32 && c as u32 <= 57
}

/// Whether a digit sequence starts with the digit zero.
pub open spec fn leading_zero(d: Seq<char>) -> bool {
    d.len() > 0 && d[0] as u32 == 48
}

/// How many digits the sequence starts with.
pub open spec fn digit_run(s: Seq<char>) -> int
    decreases s.len(),
{
    if s.len() == 0 || !is_digit(s[0]) {
        0
    } else {
        1 + digit_run(s.skip(1))
    }
}

/// The number a digit sequence denotes.
pub open spec fn digits_val(d: Seq<char>) -> int
    decreases d.len(),
{
    if d.len() == 0 {
        0
    } else {
        digits_val(d.drop_last()) * 10 + (d.last() as u32 - 48)
    }
}

/// The digit run is a well-formed prefix: within bounds, all digits, and
/// maximal.
proof fn lemma_digit_run_bounds(s: Seq<char>)
    ensures
        0 <= digit_run(s) <= s.len(),
        forall|j: int| 0 <= j < digit_run(s) ==> is_digit(#[trigger] s[j]),
        digit_run(s) < s.len() ==> !is_digit(s[digit_run(s)]),
    decreases s.len(),
{
    if s.len() == 0 || !is_digit(s[0]) {
    } else {
        lemma_digit_run_bounds(s.skip(1));
        assert forall|j: int| 0 <= j < digit_run(s) implies is_digit(#[trigger] s[j]) by {
            if j > 0 {
                assert(is_digit(s.skip(1)[j - 1]));
            }
        }
        if digit_run(s) < s.len() {
            assert(s[digit_run(s)] == s.skip(1)[digit_run(s.skip(1))]);
        }
    }
}

/// A maximal all-digit prefix pins the digit run down.
proof fn lemma_digit_run_eq(s: Seq<char>, m: int)
    requires
        0 <= m <= s.len(),
        forall|j: int| 0 <= j < m ==> is_digit(#[trigger] s[j]),
        m < s.len() ==> !is_digit(s[m]),
    ensures
        digit_run(s) == m,
    decreases s.len(),
{
    if m == 0 {
        if s.len() > 0 && is_digit(s[0]) {
            assert(false);
        }
    } else {
        assert(is_digit(s[0]));
        assert forall|j: int| 0 <= j < m - 1 implies is_digit(#[trigger] s.skip(1)[j]) by {
            assert(s.skip(1)[j] == s[j + 1]);
        }
        if m - 1 < s.skip(1).len() {
            assert(s.skip(1)[m - 1] == s[m]);
        }
        lemma_digit_run_eq(s.skip(1), m - 1);
    }
}

/// The number a digit sequence denotes is never negative.
proof fn lemma_digits_val_nonneg(d: Seq<char>)
    requires
        forall|j: int| 0 <= j < d.len() ==> is_digit(#[trigger] d[j]),
    ensures
        digits_val(d) >= 0,
    decreases d.len(),
{
    if d.len() > 0 {
        assert forall|j: int| 0 <= j < d.drop_last().len() implies is_digit(
            #[trigger] d.drop_last()[j],
        ) by {
            assert(d.drop_last()[j] == d[j]);
        }
        lemma_digits_val_nonneg(d.drop_last());
    }
}

/// A digit prefix never denotes more than the whole sequence.
proof fn lemma_digits_val_prefix(d: Seq<char>, j: int)
    requires
        0 <= j <= d.len(),
        forall|k: int| 0 <= k < d.len() ==> is_digit(#[trigger] d[k]),
    ensures
        digits_val(d.take(j)) <= digits_val(d),
    decreases d.len() - j,
{
    if j == d.len() {
        assert(d.take(j) =~= d);
    } else {
        lemma_digits_val_prefix(d, j + 1);
        let p = d.take(j + 1);
        assert(p.drop_last() =~= d.take(j));
        assert forall|k: int| 0 <= k < p.len() implies is_digit(#[trigger] p[k]) by {
            assert(p[k] == d[k]);
        }
        lemma_digits_val_nonneg(p.drop_last());
        assert(digits_val(p) == digits_val(d.take(j)) * 10 + (p.last() as u32 - 48));
        assert(is_digit(d[j]));
    }
}

/// A digit sequence without a leading zero denotes at least one.
proof fn lemma_digits_val_positive(d: Seq<char>)
    requires
        d.len() > 0,
        forall|k: int| 0 <= k < d.len() ==> is_digit(#[trigger] d[k]),
        !leading_zero(d),
    ensures
        digits_val(d) >= 1,
{
    let p = d.take(1);
    assert(p.drop_last() =~= Seq::<char>::empty());
    assert(p.last() == d[0]);
    assert(digits_val(Seq::<char>::empty()) == 0);
    assert(digits_val(p) == (d[0] as u32 - 48));
    lemma_digits_val_prefix(d, 1);
}

/// The script text with every well-formed placeholder replaced by its
/// parameter: a `$` followed by a digit run with no leading zero that
/// names an existing parameter becomes that parameter's text; any other
/// text is copied through unchanged.
pub open spec fn subst_spec(s: Seq<char>, params: Seq<Seq<char>>) -> Seq<char>
    decreases s.len(),
    via subst_spec_dec
{
    if s.len() == 0 {
        Seq::empty()
    } else if s[0] == '$' {
        let n = digit_run(s.skip(1));
        if n > 0 {
            let d = s.skip(1).take(n);
            if !leading_zero(d) && 1 <= digits_val(d) <= params.len() {
                params[digits_val(d) - 1] + subst_spec(s.skip(1 + n), params)
            } else {
                s.take(1 + n) + subst_spec(s.skip(1 + n), params)
            }
        } else {
            seq!['$'] + subst_spec(s.skip(1), params)
        }
    } else {
        seq![s[0]] + subst_spec(s.skip(1), params)
    }
}

#[via_fn]
proof fn subst_spec_dec(s: Seq<char>, params: Seq<Seq<char>>) {
    if s.len() > 0 {
        lemma_digit_run_bounds(s.skip(1));
    }
}

/// Substitutes the caller's positional parameters into the script text.
#[verifier::rlimit(100)]
pub fn substitute_params(source: &str, params: &Vec<String>) -> (r: String)
    ensures
        r@ == subst_spec(source@, params.deep_view()),
{
    let chars = str_to_chars(source);
    let ghost s = source@;
    let ghost ps = params.deep_view();
    let n = chars.len();
    let plen = params.len();
    let mut out: Vec<char> = Vec::new();
    let mut i: usize = 0;
    proof {
        assert(s.skip(0) =~= s);
        assert(Seq::<char>::empty() + subst_spec(s, ps) =~= subst_spec(s, ps));
        assert(ps.len() == params@.len());
    }
    while i < n
        invariant
            n == chars@.len(),
            chars@ == s,
            i <= n,
            ps == params.deep_view(),
            ps.len() == params@.len(),
            plen == params@.len(),
            subst_spec(s, ps) == out@ + subst_spec(s.skip(i as int), ps),
        decreases n - i,
    {
        let ghost tail = s.skip(i as int);
        proof {
            assert(tail[0] == s[i as int]);
        }
        let c = chars[i];
        if c == '$' {
            proof {
                assert(tail.skip(1) =~= s.skip(i + 1 as int));
            }
            let mut e = i + 1;
            while e < n && 48 <= chars[e] as u32 && chars[e] as u32 <= 57
                invariant
                    n == chars@.len(),
                    chars@ == s,
                    i + 1 <= e <= n,
                    forall|j: int| i + 1 <= j < e ==> is_digit(#[trigger] s[j]),
                decreases n - e,
            {
                e = e + 1;
            }
            let run_len = e - (i + 1);
            let ghost d = s.skip(i + 1 as int).take(run_len as int);
            proof {
                assert forall|j: int| 0 <= j < run_len implies is_digit(
                    #[trigger] s.skip(i + 1 as int)[j],
                ) by {
                    assert(s.skip(i + 1 as int)[j] == s[i + 1 + j]);
                }
                if run_len < s.skip(i + 1 as int).len() {
                    assert(s.skip(i + 1 as int)[run_len as int] == s[e as int]);
                    assert(!is_digit(s[e as int]));
                }
                lemma_digit_run_eq(s.skip(i + 1 as int), run_len as int);
                assert(digit_run(tail.skip(1)) == run_len as int);
                assert forall|j: int| 0 <= j < d.len() implies is_digit(#[trigger] d[j]) by {
                    assert(d[j] == s.skip(i + 1 as int)[j]);
                }
            }
            if run_len == 0 {
                out.push('$');
                proof {
                    assert(subst_spec(tail, ps) == seq!['$'] + subst_spec(tail.skip(1), ps));
                    assert(out@ + subst_spec(s.skip(i + 1 as int), ps) =~= out@.drop_last() + (seq![
                        '$',
                    ] + subst_spec(tail.skip(1), ps)));
                }
                i = i + 1;
            } else {
                let first_digit = chars[i + 1] as u32;
                let mut too_big = false;
                let mut val: u128 = 0;
                let mut j: usize = 0;
                proof {
                    assert(d.take(0) =~= Seq::<char>::empty());
                }
                while j < run_len && !too_big
                    invariant
                        n == chars@.len(),
                        chars@ == s,
                        i + 1 + run_len == e <= n,
                        j <= run_len,
                        plen == params@.len(),
                        d == s.skip(i + 1 as int).take(run_len as int),
                        forall|k: int| 0 <= k < d.len() ==> is_digit(#[trigger] d[k]),
                        d.len() == run_len,
                        !too_big ==> val as int == digits_val(d.take(j as int)) && val
                            <= plen as u128,
                        too_big ==> digits_val(d) > plen,
                    decreases (if too_big { 0int } else { 1int }), run_len - j,
                {
                    proof {
                        assert(d[j as int] == s[i + 1 + j]);
                        assert(is_digit(d[j as int]));
                    }
                    let digit = chars[i + 1 + j] as u32 - 48;
                    let next = val * 10 + digit as u128;
                    proof {
                        assert(d.take(j + 1 as int).drop_last() =~= d.take(j as int));
                        assert(d.take(j + 1 as int).last() == d[j as int]);
                        assert(next as int == digits_val(d.take(j + 1 as int)));
                    }
                    if next > plen as u128 {
                        too_big = true;
                        proof {
                            lemma_digits_val_prefix(d, j + 1 as int);
                        }
                    } else {
                        val = next;
                        j = j + 1;
                    }
                }
                let substituted = !too_big && first_digit != 48 && val >= 1;
                proof {
                    assert(first_digit == s[i + 1 as int] as u32);
                    assert(d[0] == s[i + 1 as int]);
                    if !too_big {
                        assert(j == run_len);
                        assert(d.take(run_len as int) =~= d);
                        assert(val as int == digits_val(d));
                    }
                    if !too_big && first_digit != 48 && val < 1 {
                        lemma_digits_val_positive(d);
                    }
                    assert(substituted == (!leading_zero(d) && 1 <= digits_val(d) <= ps.len()));
                }
                let ghost out0 = out@;
                if substituted {
                    let idx = (val - 1) as usize;
                    proof {
                        assert(idx as int == digits_val(d) - 1);
                        assert(ps[idx as int] == params@[idx as int]@);
                    }
                    let mut pchars = str_to_chars(params[idx].as_str());
                    out.append(&mut pchars);
                    proof {
                        assert(subst_spec(tail, ps) == ps[digits_val(d) - 1] + subst_spec(
                            tail.skip(1 + run_len),
                            ps,
                        ));
                        assert(tail.skip(1 + run_len) =~= s.skip(e as int));
                        assert(out@ =~= out0 + ps[digits_val(d) - 1]);
                        assert(out0 + (ps[digits_val(d) - 1] + subst_spec(s.skip(e as int), ps))
                            =~= (out0 + ps[digits_val(d) - 1]) + subst_spec(s.skip(e as int), ps));
                    }
                    i = e;
                } else {
                    let mut j2: usize = i;
                    while j2 < e
                        invariant
                            n == chars@.len(),
                            chars@ == s,
                            i <= j2 <= e <= n,
                            out@ == out0 + s.subrange(i as int, j2 as int),
                        decreases e - j2,
                    {
                        out.push(chars[j2]);
                        proof {
                            assert(out@ =~= out0 + s.subrange(i as int, j2 + 1 as int));
                        }
                        j2 = j2 + 1;
                    }
                    proof {
                        assert(subst_spec(tail, ps) == tail.take(1 + run_len) + subst_spec(
                            tail.skip(1 + run_len),
                            ps,
                        ));
                        assert(tail.take(1 + run_len) =~= s.subrange(i as int, e as int));
                        assert(tail.skip(1 + run_len) =~= s.skip(e as int));
                        assert(out0 + (tail.take(1 + run_len) + subst_spec(s.skip(e as int), ps))
                            =~= (out0 + s.subrange(i as int, e as int)) + subst_spec(
                            s.skip(e as int),
                            ps,
                        ));
                    }
                    i = e;
                }
            }
        } else {
            out.push(c);
            proof {
                assert(subst_spec(tail, ps) == seq![s[i as int]] + subst_spec(tail.skip(1), ps));
                assert(tail.skip(1) =~= s.skip(i + 1 as int));
                assert(out@ + subst_spec(s.skip(i + 1 as int), ps) =~= out@.drop_last() + (seq![
                    s[i as int],
                ] + subst_spec(tail.skip(1), ps)));
            }
            i = i + 1;
        }
    }
    proof {
        assert(s.skip(n as int) =~= Seq::<char>::empty());
        assert(out@ + Seq::<char>::empty() =~= out@);
    }
    chars_to_string(&out)
}

/// The base a request addresses: the reserved name `default_dbs` goes to
/// the user's own synthesized default base, any other name stands as is.
pub fn resolve_base_name(base_name: &str, user: &User) -> (r: String)
    ensures
        base_name@ == "default_dbs"@ ==> r@ == default_base_name_spec(*user),
        base_name@ != "default_dbs"@ ==> r@ == base_name@,
{
    if str_eq(base_name, "default_dbs") {
        Base::get_default_bas_name(user)
    } else {
        base_name.to_owned()
    }
}

/// Finds the addressed base in the registry; an unknown name is the
/// caller's mistake, reported as a bad request naming it.
pub fn get_base(bases: &Vec<Base>, base_name: &str) -> (r: Result<usize, SrvError>)
    ensures
        match r {
            Ok(i) => i < bases@.len() && bases@[i as int].name@ == base_name@,
            Err(e) => !has_base_named(bases@, base_name@) && e matches SrvError::BadRequest(_),
        },
{
    match find_base(bases, base_name) {
        Some(i) => Ok(i),
        None => Err(SrvError::BadRequest("Could not found the base".to_owned())),
    }
}

} // verus!
