//! Which names one listing has that another lacks.
use vstd::prelude::*;

verus! {

/// The names of `a` that `b` lacks, each once, in the order of their first
/// place in `a`.
pub open spec fn minus(a: Seq<Seq<char>>, b: Seq<Seq<char>>) -> Seq<Seq<char>>
    decreases a.len(),
{
    if a.len() == 0 {
        Seq::empty()
    } else {
        let init = minus(a.drop_last(), b);
        if b.contains(a.last()) || a.drop_last().contains(a.last()) {
            init
        } else {
            init.push(a.last())
        }
    }
}

/// `minus(a, b)` holds exactly the names of `a` that are not in `b`, and
/// none twice.
pub proof fn lemma_minus(a: Seq<Seq<char>>, b: Seq<Seq<char>>)
    ensures
        forall|x: Seq<char>| #[trigger] minus(a, b).contains(x) <==> (a.contains(x) && !b.contains(x)),
        minus(a, b).no_duplicates(),
    decreases a.len(),
{
    if a.len() == 0 {
        assert forall|y: Seq<char>| #[trigger] minus(a, b).contains(y) <==> (a.contains(y)
            && !b.contains(y)) by {
            assert(minus(a, b) =~= Seq::<Seq<char>>::empty());
            if a.contains(y) {
                let k = choose|k: int| 0 <= k < a.len() && a[k] == y;
            }
        }
    } else {
        let init = a.drop_last();
        let x = a.last();
        lemma_minus(init, b);
        assert forall|y: Seq<char>| a.contains(y) <==> (init.contains(y) || y == x) by {
            if a.contains(y) {
                let k = choose|k: int| 0 <= k < a.len() && a[k] == y;
                if k < a.len() - 1 {
                    assert(init[k] == y);
                }
            }
            if init.contains(y) {
                let k = choose|k: int| 0 <= k < init.len() && init[k] == y;
                assert(a[k] == y);
            }
            if y == x {
                assert(a[a.len() - 1] == y);
            }
        }
        let m = minus(init, b);
        if b.contains(x) || init.contains(x) {
            assert forall|y: Seq<char>| #[trigger] minus(a, b).contains(y) <==> (a.contains(y)
                && !b.contains(y)) by {
                assert(m.contains(y) <==> (init.contains(y) && !b.contains(y)));
            }
        } else {
            assert forall|y: Seq<char>| m.push(x).contains(y) <==> (m.contains(y) || y == x) by {
                if m.push(x).contains(y) {
                    let k = choose|k: int| 0 <= k < m.len() + 1 && m.push(x)[k] == y;
                    if k < m.len() {
                        assert(m[k] == y);
                    }
                }
                if m.contains(y) {
                    let k = choose|k: int| 0 <= k < m.len() && m[k] == y;
                    assert(m.push(x)[k] == y);
                }
                if y == x {
                    assert(m.push(x)[m.len() as int] == y);
                }
            }
            assert forall|y: Seq<char>| #[trigger] minus(a, b).contains(y) <==> (a.contains(y)
                && !b.contains(y)) by {
                assert(m.contains(y) <==> (init.contains(y) && !b.contains(y)));
            }
            assert forall|i: int, j: int|
                0 <= i < m.push(x).len() && 0 <= j < m.push(x).len() && i != j implies m.push(x)[i]
                != m.push(x)[j] by {
                if i < m.len() && j < m.len() {
                    assert(m.push(x)[i] == m[i]);
                    assert(m.push(x)[j] == m[j]);
                } else if i < m.len() {
                    assert(m.contains(m[i]));
                } else {
                    assert(m.contains(m[j]));
                }
            }
        }
    }
}

/// Whether `v` holds `x`.
pub fn contains_name(v: &Vec<String>, x: &String) -> (r: bool)
    ensures
        r == v.deep_view().contains(x@),
{
    let mut i: usize = 0;
    while i < v.len()
        invariant
            i <= v.len(),
            forall|j: int| 0 <= j < i ==> v.deep_view()[j] != x@,
        decreases v.len() - i,
    {
        if v[i] == *x {
            assert(v.deep_view()[i as int] == x@);
            return true;
        }
        i = i + 1;
    }
    false
}

/// The names of `a` that `b` lacks, as `minus` gives them.
pub fn difference(a: &Vec<String>, b: &Vec<String>) -> (r: Vec<String>)
    ensures
        r.deep_view() == minus(a.deep_view(), b.deep_view()),
        r.deep_view().no_duplicates(),
        forall|x: Seq<char>|
            #[trigger] r.deep_view().contains(x) <==> (a.deep_view().contains(x)
                && !b.deep_view().contains(x)),
{
    let mut out: Vec<String> = Vec::new();
    let mut i: usize = 0;
    while i < a.len()
        invariant
            i <= a.len(),
            out.deep_view() == minus(a.deep_view().take(i as int), b.deep_view()),
        decreases a.len() - i,
    {
        let ghost t = a.deep_view().take(i as int + 1);
        proof {
            assert(t.drop_last() =~= a.deep_view().take(i as int));
            assert(t.last() == a[i as int]@);
        }
        let x = &a[i];
        let seen = contains_name(b, x);
        let mut earlier = false;
        let mut j: usize = 0;
        while j < i
            invariant
                j <= i < a.len(),
                x@ == a@[i as int]@,
                earlier == a.deep_view().take(j as int).contains(a[i as int]@),
            decreases i - j,
        {
            assert(a.deep_view()[j as int] == a@[j as int]@);
            assert(a.deep_view()[i as int] == a@[i as int]@);
            if a[j] == *x {
                earlier = true;
                assert(a.deep_view().take(j + 1)[j as int] == a[i as int]@);
            } else {
                proof {
                    let s = a.deep_view().take(j + 1);
                    if earlier {
                        let k = choose|k: int| 0 <= k < j && a.deep_view().take(j as int)[k] == a[i as int]@;
                        assert(s[k] == a[i as int]@);
                    }
                    if s.contains(a[i as int]@) {
                        let k = choose|k: int| 0 <= k < j + 1 && s[k] == a[i as int]@;
                        assert(s[j as int] == a.deep_view()[j as int]);
                        assert(k != j);
                        assert(a.deep_view().take(j as int)[k] == a[i as int]@);
                    }
                }
            }
            j = j + 1;
        }
        if !seen && !earlier {
            let ghost before = out.deep_view();
            let y = x.clone();
            out.push(y);
            assert(out.deep_view() =~= before.push(y@));
        }
        i = i + 1;
    }
    assert(a.deep_view().take(a.len() as int) =~= a.deep_view());
    proof {
        lemma_minus(a.deep_view(), b.deep_view());
    }
    out
}

} // verus!
