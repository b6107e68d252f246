//! Character sequences: splitting on and joining with a separator.
use vstd::prelude::*;

verus! {

/// The pieces of `s` between occurrences of `c`, in order; always at least one.
pub open spec fn split(s: Seq<char>, c: char) -> Seq<Seq<char>>
    decreases s.len(),
{
    if s.len() == 0 {
        seq![Seq::<char>::empty()]
    } else {
        let parts = split(s.drop_last(), c);
        if s.last() == c {
            parts.push(Seq::<char>::empty())
        } else {
            parts.update(parts.len() - 1, parts.last().push(s.last()))
        }
    }
}

/// The pieces, with `c` between each two neighbours.
pub open spec fn join(parts: Seq<Seq<char>>, c: char) -> Seq<char>
    decreases parts.len(),
{
    if parts.len() == 0 {
        Seq::<char>::empty()
    } else if parts.len() == 1 {
        parts[0]
    } else {
        join(parts.drop_last(), c).push(c) + parts.last()
    }
}

/// `c` does not occur in `s`.
pub open spec fn free_of(s: Seq<char>, c: char) -> bool {
    forall|i: int| 0 <= i < s.len() ==> s[i] != c
}

pub proof fn lemma_split_nonempty(s: Seq<char>, c: char)
    ensures
        split(s, c).len() >= 1,
    decreases s.len(),
{
    if s.len() > 0 {
        lemma_split_nonempty(s.drop_last(), c);
    }
}

/// Appending text free of the separator extends the last piece.
pub proof fn lemma_split_extend(s: Seq<char>, t: Seq<char>, c: char)
    requires
        free_of(t, c),
    ensures
        split(s + t, c) == split(s, c).update(
            split(s, c).len() - 1,
            split(s, c).last() + t,
        ),
    decreases t.len(),
{
    lemma_split_nonempty(s, c);
    if t.len() == 0 {
        assert(s + t == s);
        assert(split(s, c).last() + t == split(s, c).last());
        assert(split(s, c).update(split(s, c).len() - 1, split(s, c).last()) == split(s, c));
    } else {
        let u = t.drop_last();
        lemma_split_extend(s, u, c);
        assert((s + t).drop_last() == s + u);
        assert((s + t).last() == t.last());
        assert(split(s, c).last() + u + seq![t.last()] == split(s, c).last() + t);
        assert((split(s, c).last() + u).push(t.last()) == split(s, c).last() + t);
    }
}

/// Splitting undoes joining, when no piece holds the separator.
pub proof fn lemma_split_join(parts: Seq<Seq<char>>, c: char)
    requires
        parts.len() >= 1,
        forall|i: int| 0 <= i < parts.len() ==> free_of(#[trigger] parts[i], c),
    ensures
        split(join(parts, c), c) == parts,
    decreases parts.len(),
{
    if parts.len() == 1 {
        let p = parts[0];
        lemma_split_extend(Seq::<char>::empty(), p, c);
        assert(Seq::<char>::empty() + p == p);
        assert(split(Seq::<char>::empty(), c) == seq![Seq::<char>::empty()]);
        assert(parts == seq![p]);
    } else {
        let init = parts.drop_last();
        assert forall|i: int| 0 <= i < init.len() implies free_of(#[trigger] init[i], c) by {
            assert(init[i] == parts[i]);
        }
        lemma_split_join(init, c);
        let pre = join(init, c).push(c);
        assert(pre.drop_last() == join(init, c));
        assert(split(pre, c) == init.push(Seq::<char>::empty()));
        assert(free_of(parts[parts.len() - 1], c));
        lemma_split_extend(pre, parts.last(), c);
        assert(Seq::<char>::empty() + parts.last() == parts.last());
        assert(init.push(Seq::<char>::empty()).update(init.len() as int, parts.last()) == parts);
    }
}

pub proof fn lemma_join2(x: Seq<char>, y: Seq<char>, c: char)
    ensures
        join(seq![x, y], c) == x.push(c) + y,
{
    assert(seq![x, y].drop_last() == seq![x]);
    assert(join(seq![x], c) == x);
    assert(seq![x, y].last() == y);
}

pub proof fn lemma_join3(x: Seq<char>, y: Seq<char>, z: Seq<char>, c: char)
    ensures
        join(seq![x, y, z], c) == x.push(c) + y + seq![c] + z,
{
    assert(seq![x, y, z].drop_last() == seq![x, y]);
    assert(seq![x, y, z].last() == z);
    lemma_join2(x, y, c);
    assert((x.push(c) + y).push(c) + z == x.push(c) + y + seq![c] + z);
}

pub proof fn lemma_join4(w: Seq<char>, x: Seq<char>, y: Seq<char>, z: Seq<char>, c: char)
    ensures
        join(seq![w, x, y, z], c) == w.push(c) + x + seq![c] + y + seq![c] + z,
{
    assert(seq![w, x, y, z].drop_last() == seq![w, x, y]);
    assert(seq![w, x, y, z].last() == z);
    lemma_join3(w, x, y, c);
    assert((w.push(c) + x + seq![c] + y).push(c) + z == w.push(c) + x + seq![c] + y + seq![c]
        + z);
}

/// Joining pieces free of `x` with a separator other than `x` gives text free of `x`.
pub proof fn lemma_join_free(parts: Seq<Seq<char>>, c: char, x: char)
    requires
        c != x,
        forall|i: int| 0 <= i < parts.len() ==> free_of(#[trigger] parts[i], x),
    ensures
        free_of(join(parts, c), x),
    decreases parts.len(),
{
    if parts.len() == 1 {
        assert(free_of(parts[0], x));
    } else if parts.len() > 1 {
        let init = parts.drop_last();
        assert forall|i: int| 0 <= i < init.len() implies free_of(#[trigger] init[i], x) by {
            assert(init[i] == parts[i]);
        }
        lemma_join_free(init, c, x);
        assert(free_of(parts[parts.len() - 1], x));
        let j = join(parts, c);
        let a = join(init, c).push(c);
        assert(j == a + parts.last());
        assert forall|i: int| 0 <= i < j.len() implies j[i] != x by {
            if i < a.len() {
                if i < a.len() - 1 {
                    assert(j[i] == join(init, c)[i]);
                }
            } else {
                assert(j[i] == parts.last()[i - a.len()]);
            }
        }
    }
}

/// The character sequences that the vectors hold.
pub open spec fn views(v: Seq<Vec<char>>) -> Seq<Seq<char>> {
    Seq::new(v.len(), |i: int| v[i]@)
}

/// The pieces of `s` between occurrences of `c`.
pub fn split_chars(s: &Vec<char>, c: char) -> (r: Vec<Vec<char>>)
    ensures
        views(r@) == split(s@, c),
{
    let mut parts: Vec<Vec<char>> = Vec::new();
    let mut cur: Vec<char> = Vec::new();
    let mut i: usize = 0;
    while i < s.len()
        invariant
            i <= s.len(),
            views(parts@).push(cur@) == split(s@.take(i as int), c),
        decreases s.len() - i,
    {
        let ghost before = s@.take(i as int);
        assert(s@.take(i as int + 1).drop_last() == before);
        assert(s@.take(i as int + 1).last() == s@[i as int]);
        if s[i] == c {
            let ghost old_parts = views(parts@);
            let ghost old_cur = cur@;
            parts.push(cur);
            cur = Vec::new();
            assert(views(parts@) =~= old_parts.push(old_cur));
            assert(views(parts@).push(cur@) =~= split(before, c).push(Seq::<char>::empty()));
        } else {
            let ghost old_cur = cur@;
            cur.push(s[i]);
            assert(views(parts@).push(cur@) =~= split(before, c).update(
                split(before, c).len() - 1,
                old_cur.push(s@[i as int]),
            ));
        }
        i = i + 1;
    }
    assert(s@.take(s.len() as int) == s@);
    let ghost old_parts = views(parts@);
    let ghost old_cur = cur@;
    parts.push(cur);
    assert(views(parts@) =~= old_parts.push(old_cur));
    parts
}

/// Relies on String::push: appends one character at the end.
#[verifier::external_body]
pub(crate) fn push_char(s: &mut String, c: char)
    ensures
        final(s)@ == old(s)@.push(c),
{
    s.push(c)
}

/// Appends every character of `t`.
pub fn push_chars(s: &mut String, t: &Vec<char>)
    ensures
        final(s)@ == old(s)@ + t@,
{
    let mut i: usize = 0;
    while i < t.len()
        invariant
            i <= t.len(),
            s@ == old(s)@ + t@.take(i as int),
        decreases t.len() - i,
    {
        push_char(s, t[i]);
        assert(t@.take(i as int + 1) == t@.take(i as int).push(t@[i as int]));
        i = i + 1;
    }
    assert(t@.take(t.len() as int) == t@);
}

/// The characters of `s`, in order.
pub fn chars_of(s: &str) -> (r: Vec<char>)
    ensures
        r@ == s@,
{
    let n = s.unicode_len();
    let mut r: Vec<char> = Vec::new();
    let mut i: usize = 0;
    while i < n
        invariant
            n == s@.len(),
            i <= n,
            r@ == s@.take(i as int),
        decreases n - i,
    {
        r.push(s.get_char(i));
        assert(s@.take(i as int + 1) == s@.take(i as int).push(s@[i as int]));
        i = i + 1;
    }
    assert(s@.take(n as int) == s@);
    r
}

} // verus!
