//! Placeholder resolution.
//!
//! A decoded statement may reference positional arguments: the marker
//! character `€` followed by a run of decimal digits denotes the argument
//! with that 1-based index, and a doubled marker denotes one literal marker
//! character.  Resolution rewrites every reference into a substitution token
//! `{ARG_n}` and collects the referenced indices; a marker followed by
//! neither a digit nor a marker is kept literally.

use crate::errors::ParseError;
use crate::text::chars_to_string;
use crate::text::dec_rep;
use crate::text::to_chars;
use crate::text::u128_to_chars;
use vstd::prelude::*;

verus! {

/// Whether `c` is a decimal digit.
pub open spec fn is_digit_char(c: char) -> bool {
    48 <= c as u32 && c as u32 <= 57
}

/// The value of a decimal digit character.
pub open spec fn digit_val(c: char) -> nat {
    ((c as u32) - 48) as nat
}

/// The value of a run of decimal digit characters, most significant first.
pub open spec fn digits_val(ds: Seq<char>) -> nat
    decreases ds.len(),
{
    if ds.len() == 0 {
        0
    } else {
        digits_val(ds.drop_last()) * 10 + digit_val(ds.last())
    }
}

/// The first index at or after `i` holding a non-digit, or the length of `s`.
pub open spec fn digit_run_end(s: Seq<char>, i: int) -> int
    decreases s.len() - i,
{
    if i < 0 || i >= s.len() || !is_digit_char(s[i]) {
        i
    } else {
        digit_run_end(s, i + 1)
    }
}

pub proof fn lemma_digit_run_end_bounds(s: Seq<char>, i: int)
    requires
        0 <= i <= s.len(),
    ensures
        i <= digit_run_end(s, i) <= s.len(),
    decreases s.len() - i,
{
    if i < s.len() && is_digit_char(s[i]) {
        lemma_digit_run_end_bounds(s, i + 1);
    }
}

/// The substitution token a reference to argument `n` becomes.
pub open spec fn arg_token(n: nat) -> Seq<char> {
    "{ARG_"@ + dec_rep(n) + "}"@
}

/// The outcome of resolving one decoded statement: the rewritten text and
/// the set of referenced indices, or the reason resolution fails.
pub enum Resolution {
    /// Every reference rewritten; `indices` holds the referenced arguments.
    Resolved { text: Seq<char>, indices: Set<usize> },
    /// A reference named argument index zero.
    ZeroIndex,
    /// A digit run too large for an argument index, carried verbatim.
    HugeIndex { digits: Seq<char> },
}

/// Prefixes `text` and merges `idxs` into a resolution outcome; failures
/// pass through unchanged.
pub open spec fn resolve_acc(text: Seq<char>, idxs: Set<usize>, r: Resolution) -> Resolution {
    match r {
        Resolution::Resolved { text: t, indices } => Resolution::Resolved {
            text: text + t,
            indices: idxs.union(indices),
        },
        e => e,
    }
}

/// Resolution of the suffix of `s` starting at `i`: a single left-to-right
/// scan.  A doubled marker yields one literal marker; a marker before a
/// digit run yields a substitution token for the run's value, which must be
/// a positive argument index; a lone marker is kept literally.
pub open spec fn resolve_from(s: Seq<char>, i: int) -> Resolution
    decreases s.len() - i,
    via resolve_from_dec
{
    if i < 0 || i >= s.len() {
        Resolution::Resolved { text: Seq::empty(), indices: Set::empty() }
    } else if s[i] == '€' {
        if i + 1 < s.len() && s[i + 1] == '€' {
            resolve_acc(seq!['€'], Set::empty(), resolve_from(s, i + 2))
        } else if i + 1 < s.len() && is_digit_char(s[i + 1]) {
            let j = digit_run_end(s, i + 1);
            let ds = s.subrange(i + 1, j);
            let n = digits_val(ds);
            if n == 0 {
                Resolution::ZeroIndex
            } else if n > usize::MAX {
                Resolution::HugeIndex { digits: ds }
            } else {
                resolve_acc(
                    arg_token(n),
                    Set::empty().insert(n as usize),
                    resolve_from(s, j),
                )
            }
        } else {
            resolve_acc(seq!['€'], Set::empty(), resolve_from(s, i + 1))
        }
    } else {
        resolve_acc(seq![s[i]], Set::empty(), resolve_from(s, i + 1))
    }
}

#[via_fn]
proof fn resolve_from_dec(s: Seq<char>, i: int) {
    if 0 <= i && i < s.len() {
        lemma_digit_run_end_bounds(s, i + 1);
    }
}

/// Whether `s` is strictly increasing, hence free of duplicates.
pub open spec fn sorted_unique(s: Seq<usize>) -> bool {
    forall|i: int, j: int| 0 <= i < j < s.len() ==> s[i] < s[j]
}

/// Adds `x` to the strictly increasing vector `v`, keeping it strictly
/// increasing; a value already present is not duplicated.
pub fn insert_sorted(v: &mut Vec<usize>, x: usize)
    requires
        sorted_unique(old(v)@),
    ensures
        sorted_unique(final(v)@),
        final(v)@.to_set() == old(v)@.to_set().insert(x),
{
    let n = v.len();
    let mut k: usize = 0;
    while k < n && v[k] < x
        invariant
            k <= n,
            n == v@.len(),
            v@ == old(v)@,
            forall|m: int| 0 <= m < k ==> v@[m] < x,
        decreases n - k,
    {
        k += 1;
    }
    if k < n && v[k] == x {
        proof {
            assert(v@[k as int] == x);
            assert(v@.to_set().contains(x));
            assert(v@.to_set() =~= v@.to_set().insert(x));
        }
    } else {
        let ghost before = v@;
        v.insert(k, x);
        proof {
            assert(forall|m: int| 0 <= m < k ==> v@[m] == before[m]);
            assert(v@[k as int] == x);
            assert(forall|m: int| k < m < v@.len() ==> v@[m] == before[m - 1]);
            assert(forall|m: int| k as int <= m < before.len() ==> before[m] >= x);
            assert(forall|m: int| k < m < v@.len() ==> v@[m] > x);
            assert(sorted_unique(v@));
            assert forall|a: usize| v@.to_set().contains(a) implies before.to_set().insert(
                x,
            ).contains(a) by {
                let idx = choose|idx: int| 0 <= idx < v@.len() && v@[idx] == a;
                if idx < k {
                    assert(before[idx] == a);
                } else if idx > k {
                    assert(before[idx - 1] == a);
                }
            }
            assert forall|a: usize| before.to_set().insert(x).contains(a) implies v@.to_set()
                .contains(a) by {
                if a == x {
                    assert(v@[k as int] == a);
                } else {
                    let idx = choose|idx: int| 0 <= idx < before.len() && before[idx] == a;
                    if idx < k {
                        assert(v@[idx] == a);
                    } else {
                        assert(v@[idx + 1] == a);
                    }
                }
            }
            assert(v@.to_set() =~= before.to_set().insert(x));
        }
    }
}

pub proof fn lemma_to_set_take_one_more(s: Seq<usize>, k: int)
    requires
        0 <= k < s.len(),
    ensures
        s.subrange(0, k + 1).to_set() == s.subrange(0, k).to_set().insert(s[k]),
{
    let a = s.subrange(0, k);
    let b = s.subrange(0, k + 1);
    assert forall|x: usize| b.to_set().contains(x) implies a.to_set().insert(s[k]).contains(x) by {
        let idx = choose|idx: int| 0 <= idx < b.len() && b[idx] == x;
        if idx < k {
            assert(a[idx] == x);
        }
    }
    assert forall|x: usize| a.to_set().insert(s[k]).contains(x) implies b.to_set().contains(x) by {
        if x == s[k] {
            assert(b[k] == x);
        } else {
            let idx = choose|idx: int| 0 <= idx < a.len() && a[idx] == x;
            assert(b[idx] == x);
        }
    }
    assert(b.to_set() =~= a.to_set().insert(s[k]));
}

/// Rewrites every argument reference in `s` into its substitution token and
/// records each referenced index in `required_args`, which stays strictly
/// increasing.  On failure `required_args` is unchanged.
pub fn process_placeholders(s: &str, required_args: &mut Vec<usize>) -> (r: Result<
    String,
    ParseError,
>)
    requires
        sorted_unique(old(required_args)@),
    ensures
        match r {
            Ok(text) => (match resolve_from(s@, 0) {
                Resolution::Resolved { text: t, indices } => {
                    &&& text@ == t
                    &&& final(required_args)@.to_set() == old(required_args)@.to_set().union(
                        indices,
                    )
                    &&& sorted_unique(final(required_args)@)
                },
                _ => false,
            }),
            Err(e) => {
                &&& final(required_args)@ == old(required_args)@
                &&& match (e, resolve_from(s@, 0)) {
                    (ParseError::ZeroArgumentIndex, Resolution::ZeroIndex) => true,
                    (
                        ParseError::InvalidArgumentIndex { digits },
                        Resolution::HugeIndex { digits: d },
                    ) => digits@ == d,
                    _ => false,
                }
            },
        },
{
    let cs = to_chars(s);
    let n = cs.len();
    let ghost sv = s@;
    let mut out: Vec<char> = Vec::new();
    let mut col: Vec<usize> = Vec::new();
    let mut i: usize = 0;
    proof {
        assert(col@.to_set() =~= Set::<usize>::empty());
        match resolve_from(sv, 0) {
            Resolution::Resolved { text: t, indices } => {
                assert(Seq::<char>::empty() + t =~= t);
                assert(Set::<usize>::empty().union(indices) =~= indices);
            },
            _ => {},
        }
    }
    while i < n
        invariant
            i <= n,
            n == sv.len(),
            cs@ == sv,
            sv == s@,
            required_args@ == old(required_args)@,
            sorted_unique(old(required_args)@),
            sorted_unique(col@),
            resolve_from(sv, 0) == resolve_acc(out@, col@.to_set(), resolve_from(sv, i as int)),
        decreases n - i,
    {
        let ghost out0 = out@;
        let ghost col0 = col@;
        let c = cs[i];
        if c == '€' && i + 1 < n && cs[i + 1] == '€' {
            out.push('€');
            proof {
                lemma_acc_compose(out0, col0.to_set(), seq!['€'], Set::empty(), sv, i + 2);
                assert(out@ =~= out0 + seq!['€']);
                assert(col0.to_set().union(Set::empty()) =~= col0.to_set());
            }
            i += 2;
        } else if c == '€' && i + 1 < n && digit_value(cs[i + 1]).is_some() {
            let start = i + 1;
            let mut j = start;
            let mut acc: usize = 0;
            let mut huge = false;
            let mut run: Vec<char> = Vec::new();
            while j < n && digit_value(cs[j]).is_some()
                invariant
                    start <= j <= n,
                    n == sv.len(),
                    cs@ == sv,
                    digit_run_end(sv, start as int) == digit_run_end(sv, j as int),
                    run@ == sv.subrange(start as int, j as int),
                    !huge ==> acc as nat == digits_val(sv.subrange(start as int, j as int)),
                    huge ==> digits_val(sv.subrange(start as int, j as int)) > usize::MAX,
                decreases n - j,
            {
                let d = match digit_value(cs[j]) {
                    Some(d) => d,
                    None => 0,
                };
                let ghost pre = sv.subrange(start as int, j as int);
                let ghost post = sv.subrange(start as int, j + 1 as int);
                proof {
                    assert(post.drop_last() =~= pre);
                    assert(post.last() == sv[j as int]);
                    assert(digits_val(post) == digits_val(pre) * 10 + digit_val(sv[j as int]));
                }
                if !huge {
                    let limit = (usize::MAX - d) / 10;
                    if acc > limit {
                        proof {
                            let b = (usize::MAX - d) as int;
                            assert(b == 10 * (b / 10) + b % 10 && 0 <= b % 10 < 10);
                            assert(acc as int * 10 >= (b / 10 + 1) * 10);
                            assert(digits_val(post) > usize::MAX);
                        }
                        huge = true;
                    } else {
                        proof {
                            let b = (usize::MAX - d) as int;
                            assert(b == 10 * (b / 10) + b % 10 && 0 <= b % 10 < 10);
                            assert(acc as int * 10 <= (b / 10) * 10);
                        }
                        acc = acc * 10 + d;
                    }
                } else {
                    proof {
                        assert(digits_val(pre) * 10 >= digits_val(pre));
                    }
                }
                run.push(cs[j]);
                proof {
                    assert(run@ =~= post);
                }
                j += 1;
            }
            proof {
                assert(digit_run_end(sv, j as int) == j as int);
            }
            let ghost ds = sv.subrange(start as int, j as int);
            let ghost nv = digits_val(ds);
            if huge {
                proof {
                    assert(resolve_from(sv, i as int) == Resolution::HugeIndex { digits: ds });
                    assert(resolve_from(sv, 0) == Resolution::HugeIndex { digits: ds });
                }
                return Err(ParseError::InvalidArgumentIndex { digits: chars_to_string(&run) });
            }
            if acc == 0 {
                proof {
                    assert(resolve_from(sv, i as int) == Resolution::ZeroIndex);
                    assert(resolve_from(sv, 0) == Resolution::ZeroIndex);
                }
                return Err(ParseError::ZeroArgumentIndex);
            }
            insert_sorted(&mut col, acc);
            crate::text::append_str(&mut out, "{ARG_");
            let digits = u128_to_chars(acc as u128);
            let dn = digits.len();
            let mut di: usize = 0;
            while di < dn
                invariant
                    di <= dn,
                    dn == digits@.len(),
                    out@ == out0 + "{ARG_"@ + digits@.subrange(0, di as int),
                decreases dn - di,
            {
                out.push(digits[di]);
                proof {
                    assert(out@ =~= out0 + "{ARG_"@ + digits@.subrange(0, di + 1 as int));
                }
                di += 1;
            }
            crate::text::append_str(&mut out, "}");
            proof {
                assert(digits@.subrange(0, dn as int) =~= digits@);
                assert(out@ =~= out0 + arg_token(acc as nat));
                assert(col@.to_set() =~= col0.to_set().union(Set::empty().insert(acc)));
                lemma_acc_compose(
                    out0,
                    col0.to_set(),
                    arg_token(acc as nat),
                    Set::empty().insert(acc),
                    sv,
                    j as int,
                );
                assert(resolve_from(sv, i as int) == resolve_acc(
                    arg_token(nv),
                    Set::empty().insert(nv as usize),
                    resolve_from(sv, j as int),
                ));
            }
            i = j;
        } else if c == '€' {
            out.push('€');
            proof {
                lemma_acc_compose(out0, col0.to_set(), seq!['€'], Set::empty(), sv, i + 1);
                assert(out@ =~= out0 + seq!['€']);
                assert(col0.to_set().union(Set::empty()) =~= col0.to_set());
            }
            i += 1;
        } else {
            out.push(c);
            proof {
                lemma_acc_compose(out0, col0.to_set(), seq![sv[i as int]], Set::empty(), sv, i + 1);
                assert(out@ =~= out0 + seq![sv[i as int]]);
                assert(col0.to_set().union(Set::empty()) =~= col0.to_set());
            }
            i += 1;
        }
    }
    proof {
        assert(resolve_from(sv, n as int) == Resolution::Resolved {
            text: Seq::empty(),
            indices: Set::empty(),
        });
        assert(out@ + Seq::<char>::empty() =~= out@);
        assert(col@.to_set().union(Set::empty()) =~= col@.to_set());
        assert(resolve_from(sv, 0) == Resolution::Resolved {
            text: out@,
            indices: col@.to_set(),
        });
    }
    let cn = col.len();
    let mut k: usize = 0;
    proof {
        assert(col@.subrange(0, 0) =~= Seq::<usize>::empty());
        assert(required_args@.to_set().union(col@.subrange(0, 0).to_set())
            =~= required_args@.to_set());
    }
    while k < cn
        invariant
            k <= cn,
            cn == col@.len(),
            sorted_unique(required_args@),
            required_args@.to_set() == old(required_args)@.to_set().union(
                col@.subrange(0, k as int).to_set(),
            ),
        decreases cn - k,
    {
        insert_sorted(required_args, col[k]);
        proof {
            lemma_to_set_take_one_more(col@, k as int);
            assert(old(required_args)@.to_set().union(col@.subrange(0, k as int).to_set()).insert(
                col@[k as int],
            ) =~= old(required_args)@.to_set().union(col@.subrange(0, k + 1 as int).to_set()));
        }
        k += 1;
    }
    proof {
        assert(col@.subrange(0, cn as int) =~= col@);
    }
    Ok(chars_to_string(&out))
}

/// The digit's value, or nothing when `c` is not a decimal digit.
pub fn digit_value(c: char) -> (r: Option<usize>)
    ensures
        r is Some <==> is_digit_char(c),
        r matches Some(d) ==> d as nat == digit_val(c),
{
    let u = c as u32;
    if 48 <= u && u <= 57 {
        Some((u - 48) as usize)
    } else {
        None
    }
}

proof fn lemma_acc_compose(
    text: Seq<char>,
    idxs: Set<usize>,
    t2: Seq<char>,
    i2: Set<usize>,
    s: Seq<char>,
    j: int,
)
    ensures
        resolve_acc(text, idxs, resolve_acc(t2, i2, resolve_from(s, j))) == resolve_acc(
            text + t2,
            idxs.union(i2),
            resolve_from(s, j),
        ),
{
    match resolve_from(s, j) {
        Resolution::Resolved { text: t, indices } => {
            assert(text + (t2 + t) =~= (text + t2) + t);
            assert(idxs.union(i2.union(indices)) =~= idxs.union(i2).union(indices));
        },
        _ => {},
    }
}

/// Resolution is a pure function of the decoded text, so resolving the same
/// text twice yields the same resolved text both times, and collecting the
/// referenced indices a second time adds nothing to the set.
pub proof fn lemma_resolver_idempotent(s: Seq<char>, already: Set<usize>)
    ensures
        match resolve_from(s, 0) {
            Resolution::Resolved { text, indices } => already.union(indices).union(indices)
                == already.union(indices),
            _ => true,
        },
{
    match resolve_from(s, 0) {
        Resolution::Resolved { text, indices } => {
            assert(already.union(indices).union(indices) =~= already.union(indices));
        },
        _ => {},
    }
}

/// A placeholder that names argument index zero fails with the zero-index
/// outcome whatever text stands around it: if the scan reaches position `m`
/// with no earlier marker in the way, the marker there is followed by the
/// single digit `0`, and the run ends there, resolution fails.
pub proof fn lemma_zero_index_fails(s: Seq<char>, i: int, m: int)
    requires
        0 <= i <= m,
        m + 1 < s.len(),
        forall|k: int| i <= k < m ==> s[k] != '€',
        s[m] == '€',
        s[m + 1] == '0',
        m + 2 < s.len() ==> !is_digit_char(s[m + 2]),
    ensures
        resolve_from(s, i) == Resolution::ZeroIndex,
    decreases m - i,
{
    if i == m {
        assert(is_digit_char(s[m + 1]));
        assert(s[m + 1] != '€');
        assert(digit_run_end(s, m + 2) == m + 2);
        assert(digit_run_end(s, m + 1) == m + 2);
        let ds = s.subrange(m + 1, m + 2);
        assert(ds.len() == 1);
        assert(ds.last() == s[m + 1]);
        assert(ds.drop_last() =~= Seq::<char>::empty());
        assert(digits_val(Seq::<char>::empty()) == 0);
        assert(digits_val(ds) == digits_val(ds.drop_last()) * 10 + digit_val(ds.last()));
        assert(digit_val(s[m + 1]) == 0);
    } else {
        lemma_zero_index_fails(s, i + 1, m);
    }
}

/// The zero-index failure stated over surrounding text directly: a prefix
/// free of markers, then `€0`, then any text not opening with another digit.
pub proof fn lemma_zero_index_in_context(p: Seq<char>, q: Seq<char>)
    requires
        forall|k: int| 0 <= k < p.len() ==> p[k] != '€',
        q.len() > 0 ==> !is_digit_char(q[0]),
    ensures
        resolve_from(p + seq!['€', '0'] + q, 0) == Resolution::ZeroIndex,
{
    let s = p + seq!['€', '0'] + q;
    let m = p.len() as int;
    assert(s[m] == '€');
    assert(s[m + 1] == '0');
    assert(forall|k: int| 0 <= k < m ==> s[k] == p[k]);
    assert(m + 2 < s.len() ==> s[m + 2] == q[0]);
    lemma_zero_index_fails(s, 0, m);
}

} // verus!
