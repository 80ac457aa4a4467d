use vstd::prelude::*;

verus! {

/// The pieces of `s` between occurrences of `sep`, read left to right: a
/// separator closes the current piece and opens an empty one.
pub open spec fn split_parts(s: Seq<char>, sep: char) -> Seq<Seq<char>>
    decreases s.len(),
{
    if s.len() == 0 {
        seq![Seq::<char>::empty()]
    } else {
        let prev = split_parts(s.drop_last(), sep);
        if s.last() == sep {
            prev.push(Seq::<char>::empty())
        } else {
            prev.update(prev.len() - 1, prev.last().push(s.last()))
        }
    }
}

/// The pieces laid end to end with one `sep` between neighbours.
pub open spec fn join_parts(parts: Seq<Seq<char>>, sep: char) -> Seq<char>
    decreases parts.len(),
{
    if parts.len() == 0 {
        Seq::<char>::empty()
    } else if parts.len() == 1 {
        parts[0]
    } else {
        join_parts(parts.drop_last(), sep).push(sep) + parts.last()
    }
}

/// `s` holds no occurrence of `c`.
pub open spec fn free_of(s: Seq<char>, c: char) -> bool {
    forall|k: int| 0 <= k < s.len() ==> s[k] != c
}

/// Every piece is free of `c`.
pub open spec fn all_free_of(parts: Seq<Seq<char>>, c: char) -> bool {
    forall|i: int| 0 <= i < parts.len() ==> free_of(#[trigger] parts[i], c)
}

/// Splitting always yields at least one piece.
pub proof fn lemma_split_nonempty(s: Seq<char>, sep: char)
    ensures
        split_parts(s, sep).len() >= 1,
    decreases s.len(),
{
    if s.len() > 0 {
        lemma_split_nonempty(s.drop_last(), sep);
    }
}

/// Joining the pieces of a split gives back the text that was split.
pub proof fn lemma_join_split(s: Seq<char>, sep: char)
    ensures
        join_parts(split_parts(s, sep), sep) == s,
    decreases s.len(),
{
    if s.len() > 0 {
        let prev = split_parts(s.drop_last(), sep);
        lemma_split_nonempty(s.drop_last(), sep);
        lemma_join_split(s.drop_last(), sep);
        let cur = split_parts(s, sep);
        if s.last() == sep {
            assert(cur.drop_last() =~= prev);
            assert(join_parts(cur, sep) =~= s);
        } else {
            assert(s.drop_last().push(s.last()) =~= s);
            if prev.len() == 1 {
                assert(cur.len() == 1);
                assert(cur[0] == prev[0].push(s.last()));
                assert(join_parts(cur, sep) == cur[0]);
            } else {
                assert(cur.drop_last() =~= prev.drop_last());
                assert(join_parts(cur, sep) =~= s);
            }
        }
    }
}

/// Each piece of a split consists of characters of the text alone.
pub proof fn lemma_split_free(s: Seq<char>, sep: char, c: char)
    requires
        free_of(s, c),
    ensures
        all_free_of(split_parts(s, sep), c),
    decreases s.len(),
{
    if s.len() > 0 {
        lemma_split_nonempty(s.drop_last(), sep);
        lemma_split_free(s.drop_last(), sep, c);
        let prev = split_parts(s.drop_last(), sep);
        let cur = split_parts(s, sep);
        assert forall|i: int| 0 <= i < cur.len() implies free_of(#[trigger] cur[i], c) by {
            if i < prev.len() {
                assert(free_of(prev[i], c));
            }
        }
    }
}

/// Text without separators extends the last piece of a split.
pub proof fn lemma_split_extend(y: Seq<char>, l: Seq<char>, sep: char)
    requires
        free_of(l, sep),
    ensures
        split_parts(y + l, sep) == split_parts(y, sep).update(
            split_parts(y, sep).len() - 1,
            split_parts(y, sep).last() + l,
        ),
    decreases l.len(),
{
    lemma_split_nonempty(y, sep);
    let base = split_parts(y, sep);
    if l.len() == 0 {
        assert(y + l =~= y);
        assert(base.last() + l =~= base.last());
        assert(base.update(base.len() - 1, base.last() + l) =~= base);
    } else {
        let l0 = l.drop_last();
        assert((y + l).drop_last() =~= y + l0);
        assert((y + l).last() == l.last());
        assert(free_of(l0, sep));
        lemma_split_extend(y, l0, sep);
        assert((base.last() + l0).push(l.last()) =~= base.last() + l);
        assert(split_parts(y + l, sep) =~= base.update(base.len() - 1, base.last() + l));
    }
}

/// Joining pieces that hold no separator and splitting again gives the
/// pieces back.
pub proof fn lemma_split_join(parts: Seq<Seq<char>>, sep: char)
    requires
        parts.len() >= 1,
        all_free_of(parts, sep),
    ensures
        split_parts(join_parts(parts, sep), sep) == parts,
    decreases parts.len(),
{
    let e = Seq::<char>::empty();
    if parts.len() == 1 {
        assert(free_of(parts[0], sep));
        lemma_split_extend(e, parts[0], sep);
        assert(e + parts[0] =~= parts[0]);
        assert(split_parts(e, sep).last() + parts[0] =~= parts[0]);
        assert(split_parts(parts[0], sep) =~= parts);
    } else {
        let front = parts.drop_last();
        assert(all_free_of(front, sep)) by {
            assert forall|i: int| 0 <= i < front.len() implies free_of(#[trigger] front[i], sep) by {
                assert(front[i] == parts[i]);
            }
        }
        lemma_split_join(front, sep);
        let y = join_parts(front, sep).push(sep);
        assert(y.drop_last() =~= join_parts(front, sep));
        assert(split_parts(y, sep) == front.push(e));
        assert(free_of(parts.last(), sep));
        lemma_split_extend(y, parts.last(), sep);
        assert(e + parts.last() =~= parts.last());
        assert(front.push(e).update(front.len() as int, parts.last()) =~= parts);
    }
}

/// Joining pieces free of `c` with a separator other than `c` gives text
/// free of `c`.
pub proof fn lemma_join_free(parts: Seq<Seq<char>>, sep: char, c: char)
    requires
        sep != c,
        all_free_of(parts, c),
    ensures
        free_of(join_parts(parts, sep), c),
    decreases parts.len(),
{
    if parts.len() == 1 {
        assert(free_of(parts[0], c));
    } else if parts.len() > 1 {
        let front = parts.drop_last();
        assert(all_free_of(front, c)) by {
            assert forall|i: int| 0 <= i < front.len() implies free_of(#[trigger] front[i], c) by {
                assert(front[i] == parts[i]);
            }
        }
        lemma_join_free(front, sep, c);
        assert(free_of(parts.last(), c));
        let j = join_parts(parts, sep);
        let jf = join_parts(front, sep);
        assert forall|k: int| 0 <= k < j.len() implies j[k] != c by {
            if k < jf.len() {
                assert(j[k] == jf[k]);
            } else if k > jf.len() {
                assert(j[k] == parts.last()[k - jf.len() - 1]);
            }
        }
    }
}

} // verus!
