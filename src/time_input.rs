use vstd::prelude::*;

verus! {

/// How the time positions of a layout are given.
#[derive(Clone, Debug)]
pub enum TimeInput {
    Unset,
    Regular { ndiv: usize, nrepeat: usize },
    Poly { ndiv0: usize, ndiv1: usize, nrepeat: usize },
    Formula { ndiv: usize, nrepeat: usize, formula: String },
}

impl TimeInput {
    /// The name of the kind of input, as shown to the user.
    pub fn label(&self) -> (r: &'static str)
        ensures
            r@ == match *self {
                TimeInput::Unset => "None"@,
                TimeInput::Regular { .. } => "Regular"@,
                TimeInput::Poly { .. } => "Poly"@,
                TimeInput::Formula { .. } => "Formula"@,
            },
    {
        match self {
            TimeInput::Unset => "None",
            TimeInput::Regular { .. } => "Regular",
            TimeInput::Poly { .. } => "Poly",
            TimeInput::Formula { .. } => "Formula",
        }
    }

    /// Four regular divisions, repeated four times.
    pub fn default() -> (r: TimeInput)
        ensures
            r == (TimeInput::Regular { ndiv: 4, nrepeat: 4 }),
    {
        TimeInput::Regular { ndiv: 4, nrepeat: 4 }
    }
}

/// Rejected layout input.
#[derive(Clone, Copy, PartialEq, Eq, Structural, Debug)]
pub struct LayoutParseError;

/// Positions within one repeat, each `position / den` of it, in increasing order.
#[derive(Clone, Debug)]
pub struct TimePattern {
    pub positions: Vec<u64>,
    pub den: u64,
    pub nrepeat: usize,
}

/// `0, step, 2 * step, ...`: the `n - first` multiples of `step` from `first * step`.
pub open spec fn multiples(first: int, n: int, step: int) -> Seq<u64> {
    Seq::new((n - first) as nat, |k: int| ((first + k) * step) as u64)
}

pub open spec fn sorted(s: Seq<u64>) -> bool {
    forall|i: int, j: int| 0 <= i <= j < s.len() ==> s[i] <= s[j]
}

/// The stable merge of two sequences.
pub open spec fn merge(a: Seq<u64>, b: Seq<u64>) -> Seq<u64>
    decreases a.len() + b.len(),
{
    if a.len() == 0 {
        b
    } else if b.len() == 0 {
        a
    } else if a[0] <= b[0] {
        seq![a[0]] + merge(a.drop_first(), b)
    } else {
        seq![b[0]] + merge(a, b.drop_first())
    }
}

proof fn lemma_merge_facts(a: Seq<u64>, b: Seq<u64>)
    requires
        sorted(a),
        sorted(b),
    ensures
        sorted(merge(a, b)),
        merge(a, b).to_multiset() == a.to_multiset().add(b.to_multiset()),
        merge(a, b).len() == a.len() + b.len(),
        merge(a, b).len() > 0 ==> merge(a, b)[0] == if a.len() == 0 {
            b[0]
        } else if b.len() == 0 || a[0] <= b[0] {
            a[0]
        } else {
            b[0]
        },
    decreases a.len() + b.len(),
{
    broadcast use vstd::multiset::group_multiset_axioms;

    if a.len() == 0 {
        vstd::seq_lib::lemma_multiset_commutative(a, b);
        assert(a + b =~= b);
    } else if b.len() == 0 {
        vstd::seq_lib::lemma_multiset_commutative(a, b);
        assert(a + b =~= a);
    } else if a[0] <= b[0] {
        let r = a.drop_first();
        lemma_merge_facts(r, b);
        let m = merge(r, b);
        assert(a == seq![a[0]] + r);
        vstd::seq_lib::lemma_multiset_commutative(seq![a[0]], r);
        vstd::seq_lib::lemma_multiset_commutative(seq![a[0]], m);
        assert forall|i: int, j: int| 0 <= i <= j < m.len() + 1 implies (seq![a[0]] + m)[i] <= (seq![a[0]]
            + m)[j] by {
            if i == 0 && j > 0 {
                assert(m[0] <= m[j - 1]);
            }
        }
        assert(a.to_multiset().add(b.to_multiset()) =~= seq![a[0]].to_multiset().add(
            r.to_multiset().add(b.to_multiset()),
        ));
    } else {
        let r = b.drop_first();
        lemma_merge_facts(a, r);
        let m = merge(a, r);
        assert(b == seq![b[0]] + r);
        vstd::seq_lib::lemma_multiset_commutative(seq![b[0]], r);
        vstd::seq_lib::lemma_multiset_commutative(seq![b[0]], m);
        assert forall|i: int, j: int| 0 <= i <= j < m.len() + 1 implies (seq![b[0]] + m)[i] <= (seq![b[0]]
            + m)[j] by {
            if i == 0 && j > 0 {
                assert(m[0] <= m[j - 1]);
            }
        }
        assert(a.to_multiset().add(b.to_multiset()) =~= seq![b[0]].to_multiset().add(
            a.to_multiset().add(r.to_multiset()),
        ));
    }
}

proof fn lemma_merge_step(a: Seq<u64>, b: Seq<u64>, i: int, j: int)
    requires
        0 <= i <= a.len(),
        0 <= j <= b.len(),
        i < a.len() || j < b.len(),
    ensures
        merge(a.subrange(i, a.len() as int), b.subrange(j, b.len() as int)) == if j == b.len() || (i
            < a.len() && a[i] <= b[j]) {
            seq![a[i]] + merge(a.subrange(i + 1, a.len() as int), b.subrange(j, b.len() as int))
        } else {
            seq![b[j]] + merge(a.subrange(i, a.len() as int), b.subrange(j + 1, b.len() as int))
        },
{
    let x = a.subrange(i, a.len() as int);
    let y = b.subrange(j, b.len() as int);
    if i < a.len() {
        assert(x.drop_first() =~= a.subrange(i + 1, a.len() as int));
    }
    if j < b.len() {
        assert(y.drop_first() =~= b.subrange(j + 1, b.len() as int));
    }
    if i == a.len() {
        assert(x.len() == 0);
        assert(y =~= seq![b[j]] + b.subrange(j + 1, b.len() as int));
        assert(merge(x, y) == y);
        assert(merge(x, y.drop_first()) == y.drop_first());
    } else if j == b.len() {
        assert(y.len() == 0);
        assert(x =~= seq![a[i]] + a.subrange(i + 1, a.len() as int));
        assert(merge(x.drop_first(), y) == x.drop_first());
    }
}

/// `n - first` multiples of `step`, from `first * step`.
fn multiples_vec(first: u64, n: u64, step: u64) -> (r: Vec<u64>)
    requires
        first <= n,
        n * step <= u64::MAX,
    ensures
        r@ == multiples(first as int, n as int, step as int),
        sorted(r@),
{
    let mut out: Vec<u64> = Vec::new();
    let mut k: u64 = first;
    while k < n
        invariant
            first <= k <= n,
            n * step <= u64::MAX,
            out@ == multiples(first as int, k as int, step as int),
        decreases n - k,
    {
        proof {
            assert(k * step <= n * step) by (nonlinear_arith)
                requires
                    k <= n,
            ;
        }
        out.push(k * step);
        proof {
            assert(out@ =~= multiples(first as int, k + 1, step as int));
        }
        k = k + 1;
    }
    proof {
        assert forall|i: int, j: int| 0 <= i <= j < out@.len() implies out@[i] <= out@[j] by {
            assert(0 <= (first + i) * step <= (first + j) * step <= n * step) by (nonlinear_arith)
                requires
                    0 <= i <= j,
                    first + j <= n,
                    0 <= first,
                    0 <= step,
            ;
        }
    }
    out
}

/// Stable merge of two sorted sequences.
fn merge_sorted(a: &Vec<u64>, b: &Vec<u64>) -> (r: Vec<u64>)
    requires
        sorted(a@),
        sorted(b@),
    ensures
        r@ == merge(a@, b@),
        sorted(r@),
        r@.to_multiset() == a@.to_multiset().add(b@.to_multiset()),
{
    let mut out: Vec<u64> = Vec::new();
    let mut i: usize = 0;
    let mut j: usize = 0;
    proof {
        assert(a@.subrange(0, a@.len() as int) == a@);
        assert(b@.subrange(0, b@.len() as int) == b@);
    }
    while i < a.len() || j < b.len()
        invariant
            i <= a.len(),
            j <= b.len(),
            out@ + merge(a@.subrange(i as int, a@.len() as int), b@.subrange(j as int, b@.len() as int))
                == merge(a@, b@),
        decreases a.len() + b.len() - i - j,
    {
        proof {
            lemma_merge_step(a@, b@, i as int, j as int);
        }
        if j == b.len() || (i < a.len() && a[i] <= b[j]) {
            proof {
                assert(out@.push(a@[i as int]) + merge(a@.subrange(i + 1, a@.len() as int), b@.subrange(j as int, b@.len() as int))
                    =~= out@ + (seq![a@[i as int]] + merge(a@.subrange(i + 1, a@.len() as int), b@.subrange(j as int, b@.len() as int))));
            }
            out.push(a[i]);
            i = i + 1;
        } else {
            proof {
                assert(out@.push(b@[j as int]) + merge(a@.subrange(i as int, a@.len() as int), b@.subrange(j + 1, b@.len() as int))
                    =~= out@ + (seq![b@[j as int]] + merge(a@.subrange(i as int, a@.len() as int), b@.subrange(j + 1, b@.len() as int))));
            }
            out.push(b[j]);
            j = j + 1;
        }
    }
    proof {
        let x = a@.subrange(i as int, a@.len() as int);
        let y = b@.subrange(j as int, b@.len() as int);
        assert(x.len() == 0 && y.len() == 0);
        assert(merge(x, y) == y);
        assert(out@ =~= merge(a@, b@));
        lemma_merge_facts(a@, b@);
    }
    out
}

/// The pattern of a time input: none for `Unset`; `ndiv` even divisions for
/// `Regular`; for `Poly`, the divisions of `ndiv0` and of `ndiv1` together (the
/// second without its zero), in increasing order, both non-zero or the input is
/// rejected. A formula's positions are real numbers and are evaluated by the
/// caller, not here.
pub fn make_time_pattern(input: &TimeInput) -> (r: Result<Option<TimePattern>, LayoutParseError>)
    requires
        !(*input is Formula),
        *input matches TimeInput::Poly { ndiv0, ndiv1, .. } ==> ndiv0 * ndiv1 <= u64::MAX,
    ensures
        match *input {
            TimeInput::Unset => r == Ok::<Option<TimePattern>, LayoutParseError>(None),
            TimeInput::Regular { ndiv, nrepeat } => r matches Ok(Some(p)) && p.den == ndiv && p.nrepeat
                == nrepeat && p.positions@ == multiples(0, ndiv as int, 1),
            TimeInput::Poly { ndiv0, ndiv1, nrepeat } => if ndiv0 == 0 || ndiv1 == 0 {
                r == Err::<Option<TimePattern>, LayoutParseError>(LayoutParseError)
            } else {
                r matches Ok(Some(p)) && p.den == ndiv0 * ndiv1 && p.nrepeat == nrepeat
                    && sorted(p.positions@) && p.positions@.to_multiset() == multiples(
                    0,
                    ndiv0 as int,
                    ndiv1 as int,
                ).to_multiset().add(multiples(1, ndiv1 as int, ndiv0 as int).to_multiset())
            },
            TimeInput::Formula { .. } => true,
        },
{
    match input {
        TimeInput::Unset => Ok(None),
        TimeInput::Regular { ndiv, nrepeat } => {
            let positions = multiples_vec(0, *ndiv as u64, 1);
            Ok(Some(TimePattern { positions, den: *ndiv as u64, nrepeat: *nrepeat }))
        },
        TimeInput::Poly { ndiv0, ndiv1, nrepeat } => {
            if *ndiv0 == 0 || *ndiv1 == 0 {
                return Err(LayoutParseError);
            }
            let n0 = *ndiv0 as u64;
            let n1 = *ndiv1 as u64;
            let a = multiples_vec(0, n0, n1);
            proof {
                assert(n1 * n0 == n0 * n1) by (nonlinear_arith);
            }
            let b = multiples_vec(1, n1, n0);
            let positions = merge_sorted(&a, &b);
            Ok(Some(TimePattern { positions, den: n0 * n1, nrepeat: *nrepeat }))
        },
        TimeInput::Formula { .. } => vstd::pervasive::unreached(),
    }
}

} // verus!
