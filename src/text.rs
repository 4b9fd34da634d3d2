//! Line-oriented text: splitting on and joining with newlines.
use vstd::prelude::*;

verus! {

/// The lines of `s`: the pieces between newline characters, in order.
/// A text with `k` newlines has `k + 1` lines; the empty text is one empty line.
pub open spec fn split_lines(s: Seq<char>) -> Seq<Seq<char>>
    decreases s.len(),
{
    if s.len() == 0 {
        seq![Seq::empty()]
    } else {
        let init = split_lines(s.drop_last());
        if s.last() == '\n' {
            init.push(Seq::empty())
        } else {
            init.update(init.len() - 1, init.last().push(s.last()))
        }
    }
}

/// The lines `ls` written one after another, with a newline between
/// two neighbours and none after the last.
pub open spec fn join_lines(ls: Seq<Seq<char>>) -> Seq<char>
    decreases ls.len(),
{
    if ls.len() <= 1 {
        if ls.len() == 1 { ls[0] } else { Seq::empty() }
    } else {
        join_lines(ls.drop_last()) + seq!['\n'] + ls.last()
    }
}

/// A line holds no newline character.
pub open spec fn is_line(s: Seq<char>) -> bool {
    !s.contains('\n')
}

/// Relies on `String::push`: the character is appended at the end.
#[verifier::external_body]
pub(crate) fn push_char(s: &mut String, c: char)
    ensures
        final(s)@ == old(s)@.push(c),
{
    s.push(c)
}

pub proof fn lemma_split_lines_nonempty(s: Seq<char>)
    ensures
        split_lines(s).len() >= 1,
    decreases s.len(),
{
    if s.len() > 0 {
        lemma_split_lines_nonempty(s.drop_last());
    }
}

/// Appending text without a newline extends the last line.
pub proof fn lemma_split_extend(a: Seq<char>, b: Seq<char>)
    requires
        is_line(b),
    ensures
        split_lines(a + b) == split_lines(a).update(
            split_lines(a).len() - 1,
            split_lines(a).last() + b,
        ),
    decreases b.len(),
{
    lemma_split_lines_nonempty(a);
    if b.len() == 0 {
        assert(a + b == a);
        assert(split_lines(a).last() + b == split_lines(a).last());
        assert(split_lines(a).update(split_lines(a).len() - 1, split_lines(a).last())
            =~= split_lines(a));
    } else {
        let c = b.last();
        let b0 = b.drop_last();
        assert(!b0.contains('\n')) by {
            if b0.contains('\n') {
                let k = choose|k: int| 0 <= k < b0.len() && b0[k] == '\n';
                assert(b[k] == '\n');
            }
        }
        assert(c != '\n') by {
            assert(b[b.len() - 1] == c);
        }
        lemma_split_extend(a, b0);
        assert((a + b).drop_last() =~= a + b0);
        assert((a + b).last() == c);
        assert(split_lines(a).last() + b0 + seq![c] =~= split_lines(a).last() + b);
        assert((split_lines(a).last() + b0).push(c) =~= split_lines(a).last() + b);
        assert(split_lines(a + b) =~= split_lines(a).update(
            split_lines(a).len() - 1,
            split_lines(a).last() + b,
        ));
    }
}

/// Splitting what `join_lines` wrote gives the lines back.
pub proof fn lemma_split_join(ls: Seq<Seq<char>>)
    requires
        ls.len() >= 1,
        forall|i: int| 0 <= i < ls.len() ==> is_line(#[trigger] ls[i]),
    ensures
        split_lines(join_lines(ls)) == ls,
    decreases ls.len(),
{
    let e = Seq::<char>::empty();
    assert(split_lines(e) == seq![e]);
    if ls.len() == 1 {
        lemma_split_extend(e, ls[0]);
        assert(e + ls[0] =~= ls[0]);
        assert(seq![e].update(0, e + ls[0]) =~= ls);
    } else {
        let init = ls.drop_last();
        assert forall|i: int| 0 <= i < init.len() implies is_line(#[trigger] init[i]) by {
            assert(init[i] == ls[i]);
        }
        lemma_split_join(init);
        let j = join_lines(init).push('\n');
        assert(join_lines(init) + seq!['\n'] =~= j);
        assert(j.drop_last() =~= join_lines(init));
        assert(split_lines(j) == init.push(e));
        assert(is_line(ls[ls.len() - 1]));
        lemma_split_extend(j, ls.last());
        assert(e + ls.last() =~= ls.last());
        assert(init.push(e).update(ls.len() - 1, ls.last()) =~= ls);
    }
}

/// Splits `text` at each newline.
pub fn lines_of(text: &str) -> (r: Vec<String>)
    ensures
        r.deep_view() == split_lines(text@),
{
    broadcast use vstd::string::group_string_axioms;
    let mut out: Vec<String> = Vec::new();
    let mut cur = String::new();
    for c in it: text.chars()
        invariant
            it.seq() == text@,
            split_lines(text@.take(it.index() as int)) == out.deep_view().push(cur@),
    {
        proof {
            let s = text@.take(it.index() as int + 1);
            assert(s.drop_last() == text@.take(it.index() as int));
            lemma_split_lines_nonempty(s.drop_last());
        }
        if c == '\n' {
            let done = cur;
            out.push(done);
            cur = String::new();
        } else {
            push_char(&mut cur, c);
        }
        proof {
            assert(out.deep_view() =~= out.deep_view());
        }
    }
    proof {
        assert(text@.take(text@.len() as int) == text@);
    }
    out.push(cur);
    out
}

/// Writes `ls` one after another, separated by newlines.
pub fn join_with_newlines(ls: &Vec<String>) -> (r: String)
    ensures
        r@ == join_lines(ls.deep_view()),
{
    let mut out = String::new();
    let mut i: usize = 0;
    while i < ls.len()
        invariant
            i <= ls.len(),
            out@ == join_lines(ls.deep_view().take(i as int)),
        decreases ls.len() - i,
    {
        proof {
            let t = ls.deep_view().take(i as int + 1);
            assert(t.drop_last() =~= ls.deep_view().take(i as int));
            assert(t.last() == ls[i as int]@);
        }
        if i > 0 {
            push_char(&mut out, '\n');
        } else {
            proof {
                assert(out@ == Seq::<char>::empty());
            }
        }
        out.append(ls[i].as_str());
        proof {
            if i == 0 {
                assert(out@ =~= ls[0]@);
            } else {
                assert(out@ =~= join_lines(ls.deep_view().take(i as int)) + seq!['\n'] + ls[i as int]@);
            }
        }
        i = i + 1;
    }
    proof {
        assert(ls.deep_view().take(ls.len() as int) =~= ls.deep_view());
    }
    out
}

} // verus!
