//! Lines of text: splitting at newlines (as `str::lines` does) and joining.
use vstd::prelude::*;
use crate::text::push_range;

verus! {

/// A sequence of lines, each given by its characters.
pub open spec fn deep(ls: Seq<Vec<char>>) -> Seq<Seq<char>> {
    ls.map_values(|l: Vec<char>| l@)
}

/// No character of `s` is `c`.
pub open spec fn lacks(s: Seq<char>, c: char) -> bool {
    forall|i: int| 0 <= i < s.len() ==> s[i] != c
}

/// The pieces of `s` between newline characters: one more piece than `s` has newlines.
pub open spec fn split_nl(s: Seq<char>) -> Seq<Seq<char>>
    decreases s.len(),
{
    if s.len() == 0 {
        seq![Seq::empty()]
    } else {
        let p = split_nl(s.drop_last());
        if s.last() == '\n' {
            p.push(Seq::empty())
        } else {
            p.update(p.len() - 1, p.last().push(s.last()))
        }
    }
}

/// `l` without one trailing carriage return.
pub open spec fn strip_cr(l: Seq<char>) -> Seq<char> {
    if l.len() > 0 && l.last() == '\r' {
        l.drop_last()
    } else {
        l
    }
}

/// The lines of `s` as `str::lines` yields them: the pieces between newlines,
/// without a final empty piece, and with one carriage return removed from the end
/// of each piece that a newline ended.
pub open spec fn lines(s: Seq<char>) -> Seq<Seq<char>> {
    let p = split_nl(s);
    let ended = p.drop_last().map_values(|l: Seq<char>| strip_cr(l));
    if p.last().len() == 0 {
        ended
    } else {
        ended.push(p.last())
    }
}

/// The lines `ls` joined with a newline between each two.
pub open spec fn join_lines(ls: Seq<Seq<char>>) -> Seq<char>
    decreases ls.len(),
{
    if ls.len() == 0 {
        Seq::empty()
    } else if ls.len() == 1 {
        ls[0]
    } else {
        join_lines(ls.drop_last()) + seq!['\n'] + ls.last()
    }
}

pub proof fn lemma_split_nl_len(s: Seq<char>)
    ensures
        split_nl(s).len() >= 1,
        split_nl(s).len() <= s.len() + 1,
    decreases s.len(),
{
    if s.len() > 0 {
        lemma_split_nl_len(s.drop_last());
    }
}

/// A piece never holds a newline, and holds only characters of `s`.
#[verifier::rlimit(40)]
pub proof fn lemma_split_nl_pieces(s: Seq<char>, c: char)
    ensures
        forall|i: int| 0 <= i < split_nl(s).len() ==> lacks(#[trigger] split_nl(s)[i], '\n'),
        lacks(s, c) ==> forall|i: int|
            0 <= i < split_nl(s).len() ==> lacks(#[trigger] split_nl(s)[i], c),
    decreases s.len(),
{
    lemma_split_nl_len(s);
    if s.len() > 0 {
        lemma_split_nl_pieces(s.drop_last(), c);
        lemma_split_nl_len(s.drop_last());
        let p = split_nl(s.drop_last());
        if s.last() != '\n' {
            let q = split_nl(s);
            assert forall|i: int| 0 <= i < q.len() implies lacks(#[trigger] q[i], '\n') by {
                if i == q.len() - 1 {
                    assert(q[i] == p.last().push(s.last()));
                    assert forall|j: int| 0 <= j < q[i].len() implies q[i][j] != '\n' by {
                        if j < q[i].len() - 1 {
                            assert(q[i][j] == p.last()[j]);
                        }
                    }
                } else {
                    assert(q[i] == p[i]);
                }
            }
            if lacks(s, c) {
                assert(lacks(s.drop_last(), c)) by {
                    assert forall|j: int| 0 <= j < s.drop_last().len() implies s.drop_last()[j]
                        != c by {
                        assert(s.drop_last()[j] == s[j]);
                    }
                }
                assert(s.last() == s[s.len() - 1]);
                assert forall|i: int| 0 <= i < q.len() implies lacks(#[trigger] q[i], c) by {
                    if i == q.len() - 1 {
                        assert(q[i] == p.last().push(s.last()));
                        assert forall|j: int| 0 <= j < q[i].len() implies q[i][j] != c by {
                            if j < q[i].len() - 1 {
                                assert(q[i][j] == p.last()[j]);
                            }
                        }
                    } else {
                        assert(q[i] == p[i]);
                    }
                }
            }
        } else {
            if lacks(s, c) {
                assert(lacks(s.drop_last(), c)) by {
                    assert forall|j: int| 0 <= j < s.drop_last().len() implies s.drop_last()[j]
                        != c by {
                        assert(s.drop_last()[j] == s[j]);
                    }
                }
            }
        }
    }
}

/// Splitting at a newline splits the pieces too.
pub proof fn lemma_split_nl_concat(a: Seq<char>, b: Seq<char>)
    ensures
        split_nl(a + seq!['\n'] + b) == split_nl(a) + split_nl(b),
    decreases b.len(),
{
    lemma_split_nl_len(a);
    if b.len() == 0 {
        assert((a + seq!['\n'] + b).drop_last() =~= a);
        assert(split_nl(a + seq!['\n'] + b) =~= split_nl(a) + split_nl(b));
    } else {
        let b0 = b.drop_last();
        lemma_split_nl_concat(a, b0);
        lemma_split_nl_len(b0);
        assert((a + seq!['\n'] + b).drop_last() =~= a + seq!['\n'] + b0);
        assert((a + seq!['\n'] + b).last() == b.last());
        assert(split_nl(a + seq!['\n'] + b) =~= split_nl(a) + split_nl(b));
    }
}

/// Text without a newline is a single piece.
pub proof fn lemma_split_nl_single(s: Seq<char>)
    requires
        lacks(s, '\n'),
    ensures
        split_nl(s) == seq![s],
    decreases s.len(),
{
    if s.len() > 0 {
        assert(lacks(s.drop_last(), '\n')) by {
            assert forall|j: int| 0 <= j < s.drop_last().len() implies s.drop_last()[j]
                != '\n' by {
                assert(s.drop_last()[j] == s[j]);
            }
        }
        lemma_split_nl_single(s.drop_last());
        assert(s.last() == s[s.len() - 1]);
        assert(s.drop_last().push(s.last()) =~= s);
        assert(split_nl(s) =~= seq![s]);
    } else {
        assert(s =~= Seq::<char>::empty());
        assert(split_nl(s) =~= seq![s]);
    }
}

/// Joining lines without newlines and splitting again gives back the lines.
pub proof fn lemma_split_join(ls: Seq<Seq<char>>)
    requires
        ls.len() >= 1,
        forall|i: int| 0 <= i < ls.len() ==> lacks(#[trigger] ls[i], '\n'),
    ensures
        split_nl(join_lines(ls)) == ls,
    decreases ls.len(),
{
    if ls.len() == 1 {
        lemma_split_nl_single(ls[0]);
        assert(split_nl(join_lines(ls)) =~= ls);
    } else {
        let l0 = ls.drop_last();
        assert forall|i: int| 0 <= i < l0.len() implies lacks(#[trigger] l0[i], '\n') by {
            assert(l0[i] == ls[i]);
        }
        lemma_split_join(l0);
        assert(lacks(ls.last(), '\n')) by {
            assert(ls.last() == ls[ls.len() - 1]);
        }
        lemma_split_nl_single(ls.last());
        lemma_split_nl_concat(join_lines(l0), ls.last());
        assert(split_nl(join_lines(ls)) =~= ls);
    }
}

/// Splitting and joining again gives back the text.
pub proof fn lemma_join_split(s: Seq<char>)
    ensures
        join_lines(split_nl(s)) == s,
    decreases s.len(),
{
    lemma_split_nl_len(s);
    if s.len() > 0 {
        let s0 = s.drop_last();
        lemma_join_split(s0);
        lemma_split_nl_len(s0);
        let p = split_nl(s0);
        if s.last() == '\n' {
            assert(split_nl(s).drop_last() =~= p);
            assert(join_lines(split_nl(s)) =~= s0 + seq!['\n'] + Seq::<char>::empty());
            assert(s0.push('\n') =~= s);
        } else {
            let q = split_nl(s);
            if p.len() == 1 {
                assert(q =~= seq![p[0].push(s.last())]);
                assert(join_lines(p) == p[0]);
                assert(join_lines(q) =~= s);
            } else {
                assert(q.drop_last() =~= p.drop_last());
                assert(join_lines(p) == join_lines(p.drop_last()) + seq!['\n'] + p.last());
                assert(join_lines(q) =~= join_lines(p).push(s.last()));
                assert(s0.push(s.last()) =~= s);
            }
        }
    }
}

/// Text without carriage returns: `lines` is the pieces, less a final empty one.
pub proof fn lemma_lines_plain(s: Seq<char>)
    requires
        lacks(s, '\r'),
    ensures
        split_nl(s).last().len() == 0 ==> lines(s) == split_nl(s).drop_last(),
        split_nl(s).last().len() != 0 ==> lines(s) == split_nl(s),
        forall|i: int| 0 <= i < lines(s).len() ==> lacks(#[trigger] lines(s)[i], '\n'),
        forall|i: int| 0 <= i < lines(s).len() ==> lacks(#[trigger] lines(s)[i], '\r'),
{
    lemma_split_nl_len(s);
    lemma_split_nl_pieces(s, '\r');
    let p = split_nl(s);
    let ended = p.drop_last().map_values(|l: Seq<char>| strip_cr(l));
    assert forall|i: int| 0 <= i < p.len() - 1 implies ended[i] == p[i] by {
        assert(lacks(p[i], '\r'));
        if p[i].len() > 0 {
            assert(p[i].last() == p[i][p[i].len() - 1]);
        }
    }
    assert(ended =~= p.drop_last());
    if p.last().len() != 0 {
        assert(lines(s) =~= p);
    }
    assert forall|i: int| 0 <= i < lines(s).len() implies lacks(#[trigger] lines(s)[i], '\n')
        && lacks(lines(s)[i], '\r') by {
        assert(lines(s)[i] == p[i]);
    }
}

/// Splits `v` into its lines (`str::lines`).
#[verifier::rlimit(40)]
pub fn split_lines(v: &Vec<char>) -> (r: Vec<Vec<char>>)
    ensures
        deep(r@) == lines(v@),
{
    let mut done: Vec<Vec<char>> = Vec::new();
    let mut cur: Vec<char> = Vec::new();
    let mut i: usize = 0;
    assert(v@.take(0) =~= Seq::<char>::empty());
    assert(deep(done@) =~= split_nl(v@.take(0)).drop_last().map_values(
        |l: Seq<char>| strip_cr(l),
    ));
    while i < v.len()
        invariant
            i <= v.len(),
            split_nl(v@.take(i as int)).len() == done.len() + 1,
            split_nl(v@.take(i as int)).last() == cur@,
            deep(done@) == split_nl(v@.take(i as int)).drop_last().map_values(
                |l: Seq<char>| strip_cr(l),
            ),
        decreases v.len() - i,
    {
        let c = v[i];
        let ghost p = split_nl(v@.take(i as int));
        proof {
            assert(v@.take(i + 1).drop_last() =~= v@.take(i as int));
            assert(v@.take(i + 1).last() == c);
        }
        if c == '\n' {
            let mut line = cur;
            if line.len() > 0 && line[line.len() - 1] == '\r' {
                line.pop();
            }
            assert(line@ == strip_cr(p.last()));
            let ghost before = done@;
            done.push(line);
            cur = Vec::new();
            proof {
                let q = split_nl(v@.take(i + 1));
                assert(q == p.push(Seq::empty()));
                assert(q.drop_last() =~= p);
                assert(deep(done@) =~= deep(before).push(strip_cr(p.last())));
                assert(deep(done@) =~= q.drop_last().map_values(|l: Seq<char>| strip_cr(l)));
            }
        } else {
            cur.push(c);
            proof {
                let q = split_nl(v@.take(i + 1));
                assert(q.drop_last() =~= p.drop_last());
            }
        }
        i = i + 1;
    }
    assert(v@.take(v.len() as int) =~= v@);
    if cur.len() > 0 {
        let ghost before = done@;
        done.push(cur);
        assert(deep(done@) =~= deep(before).push(split_nl(v@).last()));
    }
    done
}

/// The lines `ls` joined with a newline between each two.
pub fn join_with_newlines(ls: &Vec<Vec<char>>) -> (r: String)
    ensures
        r@ == join_lines(deep(ls@)),
{
    let mut r = String::new();
    let mut i: usize = 0;
    while i < ls.len()
        invariant
            i <= ls.len(),
            r@ == join_lines(deep(ls@).take(i as int)),
        decreases ls.len() - i,
    {
        let ghost t = deep(ls@).take(i + 1);
        proof {
            assert(t.drop_last() =~= deep(ls@).take(i as int));
            assert(t.last() == ls@[i as int]@);
        }
        if i > 0 {
            crate::text::push_char(&mut r, '\n');
        }
        push_range(&mut r, &ls[i], 0, ls[i].len());
        proof {
            assert(ls[i as int]@.subrange(0, ls[i as int]@.len() as int) =~= ls[i as int]@);
            if i == 0 {
                assert(join_lines(t) == t[0]);
                assert(r@ =~= t[0]);
            } else {
                assert(r@ =~= join_lines(t));
            }
        }
        i = i + 1;
    }
    assert(deep(ls@).take(ls.len() as int) =~= deep(ls@));
    r
}

/// Text made of two texts without `c` has no `c`.
pub proof fn lemma_lacks_concat(a: Seq<char>, b: Seq<char>, c: char)
    requires
        lacks(a, c),
        lacks(b, c),
    ensures
        lacks(a + b, c),
{
    assert forall|i: int| 0 <= i < (a + b).len() implies (a + b)[i] != c by {
        if i < a.len() {
            assert((a + b)[i] == a[i]);
        } else {
            assert((a + b)[i] == b[i - a.len()]);
        }
    }
}

/// `l` ends with a carriage return.
pub open spec fn ends_cr(l: Seq<char>) -> bool {
    l.len() > 0 && l.last() == '\r'
}

/// No line holds a newline.
pub proof fn lemma_lines_one_line(s: Seq<char>)
    ensures
        forall|i: int| 0 <= i < lines(s).len() ==> lacks(#[trigger] lines(s)[i], '\n'),
{
    lemma_split_nl_len(s);
    lemma_split_nl_pieces(s, '\n');
    let p = split_nl(s);
    assert forall|i: int| 0 <= i < lines(s).len() implies lacks(#[trigger] lines(s)[i], '\n') by {
        assert(lacks(p[i], '\n'));
        if i < p.len() - 1 {
            let l = p[i];
            assert(lines(s)[i] == strip_cr(l));
            if l.len() > 0 && l.last() == '\r' {
                assert forall|j: int| 0 <= j < l.drop_last().len() implies l.drop_last()[j]
                    != '\n' by {
                    assert(l.drop_last()[j] == l[j]);
                }
            }
        } else {
            assert(lines(s)[i] == p.last());
        }
    }
}

/// When no piece that a newline ends has a carriage return at its end,
/// `lines` is the pieces, less a final empty one.
pub proof fn lemma_lines_pieces(s: Seq<char>)
    requires
        forall|i: int| 0 <= i < split_nl(s).len() - 1 ==> !ends_cr(#[trigger] split_nl(s)[i]),
    ensures
        split_nl(s).last().len() == 0 ==> lines(s) == split_nl(s).drop_last(),
        split_nl(s).last().len() != 0 ==> lines(s) == split_nl(s),
{
    lemma_split_nl_len(s);
    let p = split_nl(s);
    let ended = p.drop_last().map_values(|l: Seq<char>| strip_cr(l));
    assert forall|i: int| 0 <= i < p.len() - 1 implies ended[i] == p[i] by {
        assert(!ends_cr(p[i]));
    }
    assert(ended =~= p.drop_last());
    if p.last().len() != 0 {
        assert(lines(s) =~= p);
    }
}

} // verus!
