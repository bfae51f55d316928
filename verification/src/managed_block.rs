//! The block that `runin` manages inside a shell startup file.
use vstd::prelude::*;
use crate::lines::{deep, join_lines, lacks, lemma_lacks_concat, lines, split_nl};
use crate::text::{chars_of, chars_eq, push_char, push_range};

verus! {

/// The line that opens the managed block.
pub const RUNIN_BLOCK_START: &'static str = "# >>> runin shell integration >>>";

/// The line that closes the managed block.
pub const RUNIN_BLOCK_END: &'static str = "# <<< runin shell integration <<<";

pub open spec fn block_start() -> Seq<char> {
    RUNIN_BLOCK_START@
}

pub open spec fn block_end() -> Seq<char> {
    RUNIN_BLOCK_END@
}

/// `l` is one of the two marker lines.
pub open spec fn is_marker(l: Seq<char>) -> bool {
    l == block_start() || l == block_end()
}

/// `k` without one final empty line.
pub open spec fn pop_blank(k: Seq<Seq<char>>) -> Seq<Seq<char>> {
    if k.len() > 0 && k.last().len() == 0 {
        k.drop_last()
    } else {
        k
    }
}

/// One step of the block removal: the kept lines and whether a block is open,
/// after reading `line`.
pub open spec fn strip_step(kept: Seq<Seq<char>>, inside: bool, line: Seq<char>) -> (
    Seq<Seq<char>>,
    bool,
) {
    if line == block_start() {
        (pop_blank(kept), true)
    } else if line == block_end() {
        (kept, false)
    } else if !inside {
        (kept.push(line), false)
    } else {
        (kept, true)
    }
}

/// The block removal run over `ls` from the state `(kept, inside)`.
pub open spec fn strip_from(kept: Seq<Seq<char>>, inside: bool, ls: Seq<Seq<char>>) -> (
    Seq<Seq<char>>,
    bool,
)
    decreases ls.len(),
{
    if ls.len() == 0 {
        (kept, inside)
    } else {
        let st = strip_from(kept, inside, ls.drop_last());
        strip_step(st.0, st.1, ls.last())
    }
}

/// The lines of `ls` that lie outside managed blocks; the marker lines go,
/// and so does one empty line just before each opening marker.
pub open spec fn strip_blocks(ls: Seq<Seq<char>>) -> Seq<Seq<char>> {
    strip_from(Seq::empty(), false, ls).0
}

/// `content` with its managed blocks removed.
pub open spec fn removed(content: Seq<char>) -> Seq<char> {
    let r = join_lines(strip_blocks(lines(content)));
    if r.len() > 0 && content.len() > 0 && content.last() == '\n' {
        r.push('\n')
    } else {
        r
    }
}

/// `s` without its trailing newlines.
pub open spec fn trim_end_nl(s: Seq<char>) -> Seq<char>
    decreases s.len(),
{
    if s.len() > 0 && s.last() == '\n' {
        trim_end_nl(s.drop_last())
    } else {
        s
    }
}

/// `content` with its managed blocks replaced by `block`, placed at the end
/// after an empty line.
pub open spec fn upserted(content: Seq<char>, block: Seq<char>) -> Seq<char> {
    let w = trim_end_nl(removed(content));
    if w.len() == 0 {
        block.push('\n')
    } else {
        w + seq!['\n', '\n'] + block + seq!['\n']
    }
}

/// The managed block around the lines `body`.
pub open spec fn managed_block(body: Seq<char>) -> Seq<char> {
    block_start() + seq!['\n'] + body + seq!['\n'] + block_end()
}

/// A block body that the removal recognises as such: no carriage return and
/// no line that is a marker.
pub open spec fn body_ok(body: Seq<char>) -> bool {
    &&& lacks(body, '\r')
    &&& forall|i: int| 0 <= i < split_nl(body).len() ==> !is_marker(#[trigger] split_nl(body)[i])
}

/// A copy of `v`.
fn copy_chars(v: &Vec<char>) -> (r: Vec<char>)
    ensures
        r@ == v@,
{
    let mut r: Vec<char> = Vec::new();
    let mut i: usize = 0;
    while i < v.len()
        invariant
            i <= v.len(),
            r@ == v@.take(i as int),
        decreases v.len() - i,
    {
        r.push(v[i]);
        assert(v@.take(i + 1) =~= v@.take(i as int).push(v@[i as int]));
        i = i + 1;
    }
    assert(v@.take(v.len() as int) =~= v@);
    r
}

/// The lines of `ls` outside managed blocks.
pub fn strip_managed(ls: &Vec<Vec<char>>) -> (r: Vec<Vec<char>>)
    ensures
        deep(r@) == strip_blocks(deep(ls@)),
{
    let start = chars_of(RUNIN_BLOCK_START);
    let end = chars_of(RUNIN_BLOCK_END);
    let mut kept: Vec<Vec<char>> = Vec::new();
    let mut inside = false;
    let mut i: usize = 0;
    assert(deep(ls@).take(0) =~= Seq::<Seq<char>>::empty());
    assert(deep(kept@) =~= Seq::<Seq<char>>::empty());
    while i < ls.len()
        invariant
            i <= ls.len(),
            start@ == block_start(),
            end@ == block_end(),
            (deep(kept@), inside) == strip_from(Seq::empty(), false, deep(ls@).take(i as int)),
        decreases ls.len() - i,
    {
        let ghost t = deep(ls@).take(i + 1);
        let ghost before = deep(kept@);
        proof {
            assert(t.drop_last() =~= deep(ls@).take(i as int));
            assert(t.last() == ls@[i as int]@);
        }
        if chars_eq(&ls[i], &start) {
            if kept.len() > 0 && kept[kept.len() - 1].len() == 0 {
                kept.pop();
                assert(deep(kept@) =~= before.drop_last());
            }
            inside = true;
        } else if chars_eq(&ls[i], &end) {
            inside = false;
        } else if !inside {
            kept.push(copy_chars(&ls[i]));
            assert(deep(kept@) =~= before.push(ls@[i as int]@));
        }
        i = i + 1;
    }
    assert(deep(ls@).take(ls.len() as int) =~= deep(ls@));
    kept
}

/// `content` without the blocks that `runin` manages, and without the empty
/// line that precedes each of them.
pub fn remove_managed_block(content: &str) -> (r: String)
    ensures
        r@ == removed(content@),
{
    let v = chars_of(content);
    let ls = crate::lines::split_lines(&v);
    let kept = strip_managed(&ls);
    let mut r = crate::lines::join_with_newlines(&kept);
    let ends_nl = v.len() > 0 && v[v.len() - 1] == '\n';
    let rv = chars_of(r.as_str());
    if rv.len() > 0 && ends_nl {
        push_char(&mut r, '\n');
    }
    r
}

/// `content` with the managed block set to `block`: earlier managed blocks go,
/// and `block` ends the text after an empty line.
pub fn upsert_managed_block(content: &str, block: &str) -> (r: String)
    ensures
        r@ == upserted(content@, block@),
{
    let without = remove_managed_block(content);
    let w = chars_of(without.as_str());
    let mut hi = w.len();
    assert(w@.take(hi as int) =~= w@);
    while hi > 0 && w[hi - 1] == '\n'
        invariant
            hi <= w.len(),
            trim_end_nl(w@) == trim_end_nl(w@.take(hi as int)),
        decreases hi,
    {
        assert(w@.take(hi as int).drop_last() =~= w@.take(hi - 1));
        hi = hi - 1;
    }
    let ghost tw = trim_end_nl(removed(content@));
    proof {
        let t = w@.take(hi as int);
        if hi > 0 {
            assert(t.last() == w@[hi - 1]);
        }
        assert(trim_end_nl(t) == t);
        assert(t == tw);
    }
    let b = chars_of(block);
    let mut r = String::new();
    if hi == 0 {
        push_range(&mut r, &b, 0, b.len());
        push_char(&mut r, '\n');
        proof {
            assert(b@.subrange(0, b@.len() as int) =~= b@);
            assert(tw.len() == 0);
            assert(r@ =~= block@.push('\n'));
        }
    } else {
        push_range(&mut r, &w, 0, hi);
        push_char(&mut r, '\n');
        push_char(&mut r, '\n');
        push_range(&mut r, &b, 0, b.len());
        push_char(&mut r, '\n');
        proof {
            assert(b@.subrange(0, b@.len() as int) =~= b@);
            assert(w@.subrange(0, hi as int) =~= tw);
            assert(tw.len() > 0);
            assert(r@ =~= tw + seq!['\n', '\n'] + block@ + seq!['\n']);
        }
    }
    r
}

/// `ls` without its trailing empty lines.
pub open spec fn drop_blank_tail(ls: Seq<Seq<char>>) -> Seq<Seq<char>>
    decreases ls.len(),
{
    if ls.len() > 0 && ls.last().len() == 0 {
        drop_blank_tail(ls.drop_last())
    } else {
        ls
    }
}

/// A line as the removal keeps it: one line, and no marker.
pub open spec fn plain_line(l: Seq<char>) -> bool {
    lacks(l, '\n') && !is_marker(l)
}

/// The lines of `content` that lie outside managed blocks.
pub open spec fn kept_lines(content: Seq<char>) -> Seq<Seq<char>> {
    strip_blocks(lines(content))
}

/// A block that the removal recognises as a whole: no carriage return, an
/// opening marker as its first line, a closing marker as its last, and no
/// marker line in between.
pub open spec fn block_ok(block: Seq<char>) -> bool {
    let p = split_nl(block);
    &&& lacks(block, '\r')
    &&& p.len() >= 2
    &&& p[0] == block_start()
    &&& p.last() == block_end()
    &&& forall|i: int| 1 <= i < p.len() - 1 ==> !is_marker(#[trigger] p[i])
}

/// How many of the lines `ls` are `x`.
pub open spec fn count_line(ls: Seq<Seq<char>>, x: Seq<char>) -> nat
    decreases ls.len(),
{
    if ls.len() == 0 {
        0
    } else {
        count_line(ls.drop_last(), x) + if ls.last() == x {
            1nat
        } else {
            0nat
        }
    }
}

pub proof fn lemma_markers()
    ensures
        lacks(block_start(), '\n'),
        lacks(block_start(), '\r'),
        lacks(block_end(), '\n'),
        lacks(block_end(), '\r'),
        block_start() != block_end(),
        block_start().len() > 0,
        block_end().len() > 0,
        block_start()[0] == '#',
        block_end()[0] == '#',
{
    reveal_strlit("# >>> runin shell integration >>>");
    reveal_strlit("# <<< runin shell integration <<<");
    assert(block_start()[2] != block_end()[2]);
}

proof fn lemma_strip_from_concat(k: Seq<Seq<char>>, inside: bool, a: Seq<Seq<char>>, b: Seq<Seq<char>>)
    ensures
        strip_from(k, inside, a + b) == strip_from(
            strip_from(k, inside, a).0,
            strip_from(k, inside, a).1,
            b,
        ),
    decreases b.len(),
{
    if b.len() == 0 {
        assert(a + b =~= a);
    } else {
        lemma_strip_from_concat(k, inside, a, b.drop_last());
        assert((a + b).drop_last() =~= a + b.drop_last());
        assert((a + b).last() == b.last());
    }
}

/// Outside a block, lines that are no markers are all kept.
proof fn lemma_strip_plain(k: Seq<Seq<char>>, ls: Seq<Seq<char>>)
    requires
        forall|i: int| 0 <= i < ls.len() ==> !is_marker(#[trigger] ls[i]),
    ensures
        strip_from(k, false, ls) == (k + ls, false),
    decreases ls.len(),
{
    if ls.len() == 0 {
        assert(k + ls =~= k);
    } else {
        let l0 = ls.drop_last();
        assert forall|i: int| 0 <= i < l0.len() implies !is_marker(#[trigger] l0[i]) by {
            assert(l0[i] == ls[i]);
        }
        lemma_strip_plain(k, l0);
        assert(!is_marker(ls[ls.len() - 1]));
        assert((k + l0).push(ls.last()) =~= k + ls);
    }
}

/// Inside a block, lines that are no markers are all dropped.
proof fn lemma_strip_inside(k: Seq<Seq<char>>, ls: Seq<Seq<char>>)
    requires
        forall|i: int| 0 <= i < ls.len() ==> !is_marker(#[trigger] ls[i]),
    ensures
        strip_from(k, true, ls) == (k, true),
    decreases ls.len(),
{
    if ls.len() > 0 {
        let l0 = ls.drop_last();
        assert forall|i: int| 0 <= i < l0.len() implies !is_marker(#[trigger] l0[i]) by {
            assert(l0[i] == ls[i]);
        }
        lemma_strip_inside(k, l0);
        assert(!is_marker(ls[ls.len() - 1]));
    }
}

/// A whole block goes, with the empty line before it.
proof fn lemma_strip_block(k: Seq<Seq<char>>, mids: Seq<Seq<char>>)
    requires
        forall|i: int| 0 <= i < mids.len() ==> !is_marker(#[trigger] mids[i]),
    ensures
        strip_from(k, false, seq![block_start()] + mids + seq![block_end()]) == (pop_blank(k), false),
{
    lemma_markers();
    let s1 = seq![block_start()];
    assert(strip_from(k, false, s1.drop_last()) == (k, false)) by {
        assert(s1.drop_last() =~= Seq::<Seq<char>>::empty());
    }
    assert(strip_from(k, false, s1) == (pop_blank(k), true));
    lemma_strip_from_concat(k, false, s1, mids);
    lemma_strip_inside(pop_blank(k), mids);
    lemma_strip_from_concat(k, false, s1 + mids, seq![block_end()]);
    let s3 = seq![block_end()];
    assert(strip_from(pop_blank(k), true, s3.drop_last()) == (pop_blank(k), true)) by {
        assert(s3.drop_last() =~= Seq::<Seq<char>>::empty());
    }
}

/// A property of all kept lines and of all lines that are no markers holds of
/// the lines kept after the removal.
proof fn lemma_strip_keeps(
    k: Seq<Seq<char>>,
    inside: bool,
    ls: Seq<Seq<char>>,
    prop: spec_fn(Seq<char>) -> bool,
)
    requires
        forall|i: int| 0 <= i < k.len() ==> prop(#[trigger] k[i]),
        forall|i: int| 0 <= i < ls.len() ==> !is_marker(#[trigger] ls[i]) ==> prop(ls[i]),
    ensures
        forall|i: int|
            0 <= i < strip_from(k, inside, ls).0.len() ==> prop(
                #[trigger] strip_from(k, inside, ls).0[i],
            ),
    decreases ls.len(),
{
    if ls.len() > 0 {
        let l0 = ls.drop_last();
        assert forall|i: int| 0 <= i < l0.len() && !is_marker(#[trigger] l0[i]) implies prop(
            l0[i],
        ) by {
            assert(l0[i] == ls[i]);
        }
        lemma_strip_keeps(k, inside, l0, prop);
        assert(!is_marker(ls[ls.len() - 1]) ==> prop(ls[ls.len() - 1]));
        let st = strip_from(k, inside, l0);
        let r = strip_from(k, inside, ls).0;
        assert forall|i: int| 0 <= i < r.len() implies prop(#[trigger] r[i]) by {
            if i < st.0.len() {
                assert(r[i] == st.0[i]);
            }
        }
    }
}

/// The kept lines are plain lines.
proof fn lemma_kept_plain(content: Seq<char>)
    ensures
        forall|i: int|
            0 <= i < kept_lines(content).len() ==> plain_line(#[trigger] kept_lines(content)[i]),
{
    crate::lines::lemma_lines_one_line(content);
    let ls = lines(content);
    let prop = |l: Seq<char>| plain_line(l);
    assert forall|i: int| 0 <= i < ls.len() && !is_marker(#[trigger] ls[i]) implies prop(
        ls[i],
    ) by {
        assert(lacks(ls[i], '\n'));
    }
    lemma_strip_keeps(Seq::empty(), false, ls, prop);
}

proof fn lemma_join_lacks(ls: Seq<Seq<char>>, c: char)
    requires
        c != '\n',
        forall|i: int| 0 <= i < ls.len() ==> lacks(#[trigger] ls[i], c),
    ensures
        lacks(join_lines(ls), c),
    decreases ls.len(),
{
    if ls.len() == 1 {
        assert(lacks(ls[0], c));
    } else if ls.len() > 1 {
        let l0 = ls.drop_last();
        assert forall|i: int| 0 <= i < l0.len() implies lacks(#[trigger] l0[i], c) by {
            assert(l0[i] == ls[i]);
        }
        lemma_join_lacks(l0, c);
        assert(lacks(ls[ls.len() - 1], c));
        assert(lacks(seq!['\n'], c));
        lemma_lacks_concat(join_lines(l0), seq!['\n'], c);
        lemma_lacks_concat(join_lines(l0) + seq!['\n'], ls.last(), c);
    }
}

proof fn lemma_join_last(ls: Seq<Seq<char>>)
    requires
        ls.len() > 0,
        ls.last().len() > 0,
    ensures
        join_lines(ls).len() > 0,
        join_lines(ls).last() == ls.last().last(),
{
    if ls.len() == 1 {
        assert(ls[0] == ls.last());
    }
}

/// Trailing newlines of joined lines are its trailing empty lines.
#[verifier::rlimit(40)]
proof fn lemma_trim_join(ls: Seq<Seq<char>>)
    requires
        forall|i: int| 0 <= i < ls.len() ==> lacks(#[trigger] ls[i], '\n'),
    ensures
        trim_end_nl(join_lines(ls)) == join_lines(drop_blank_tail(ls)),
        drop_blank_tail(ls).len() <= ls.len(),
        drop_blank_tail(ls) == ls.take(drop_blank_tail(ls).len() as int),
        drop_blank_tail(ls).len() > 0 ==> drop_blank_tail(ls).last().len() > 0,
    decreases ls.len(),
{
    if ls.len() == 0 {
        assert(ls.take(0) =~= ls);
    } else {
        let l0 = ls.drop_last();
        assert forall|i: int| 0 <= i < l0.len() implies lacks(#[trigger] l0[i], '\n') by {
            assert(l0[i] == ls[i]);
        }
        lemma_trim_join(l0);
        if ls.last().len() == 0 {
            assert(l0.take(drop_blank_tail(l0).len() as int) =~= ls.take(
                drop_blank_tail(l0).len() as int,
            ));
            if l0.len() > 0 {
                let j = join_lines(ls);
                assert(j =~= join_lines(l0).push('\n'));
                assert(j.drop_last() =~= join_lines(l0));
            } else {
                assert(join_lines(ls) == ls[0]);
                assert(ls[0] == ls.last());
                assert(join_lines(ls) =~= join_lines(l0));
            }
        } else {
            assert(ls.take(ls.len() as int) =~= ls);
            lemma_join_last(ls);
            assert(lacks(ls[ls.len() - 1], '\n'));
            assert(ls.last().last() == ls.last()[ls.last().len() - 1]);
        }
    }
}

/// The lines of a block of the right shape: its markers around its middle
/// lines, none of which is a marker or ends with a carriage return.
proof fn lemma_block_shape(block: Seq<char>)
    requires
        block_ok(block),
    ensures
        ({
            let p = split_nl(block);
            let mids = p.subrange(1, p.len() - 1);
            &&& p == seq![block_start()] + mids + seq![block_end()]
            &&& forall|i: int| 0 <= i < mids.len() ==> !is_marker(#[trigger] mids[i])
            &&& forall|i: int| 0 <= i < p.len() ==> !crate::lines::ends_cr(#[trigger] p[i])
        }),
{
    let p = split_nl(block);
    let mids = p.subrange(1, p.len() - 1);
    assert(p =~= seq![block_start()] + mids + seq![block_end()]);
    assert forall|i: int| 0 <= i < mids.len() implies !is_marker(#[trigger] mids[i]) by {
        assert(mids[i] == p[i + 1]);
    }
    crate::lines::lemma_split_nl_pieces(block, '\r');
    assert forall|i: int| 0 <= i < p.len() implies !crate::lines::ends_cr(#[trigger] p[i]) by {
        assert(lacks(p[i], '\r'));
        if p[i].len() > 0 {
            assert(p[i].last() == p[i][p[i].len() - 1]);
        }
    }
}

/// The block made of a well-formed body has the right shape.
pub proof fn lemma_managed_block_ok(body: Seq<char>)
    requires
        body_ok(body),
    ensures
        block_ok(managed_block(body)),
{
    lemma_markers();
    let b = managed_block(body);
    let tail = body + seq!['\n'] + block_end();
    assert(b =~= block_start() + seq!['\n'] + tail);
    crate::lines::lemma_split_nl_concat(block_start(), tail);
    crate::lines::lemma_split_nl_concat(body, block_end());
    crate::lines::lemma_split_nl_single(block_start());
    crate::lines::lemma_split_nl_single(block_end());
    let p = split_nl(b);
    assert(p =~= seq![block_start()] + split_nl(body) + seq![block_end()]);
    assert forall|i: int| 1 <= i < p.len() - 1 implies !is_marker(#[trigger] p[i]) by {
        assert(p[i] == split_nl(body)[i - 1]);
    }
    lemma_lacks_concat(block_start(), seq!['\n'], '\r');
    lemma_lacks_concat(block_start() + seq!['\n'], body, '\r');
    lemma_lacks_concat(block_start() + seq!['\n'] + body, seq!['\n'], '\r');
    lemma_lacks_concat(block_start() + seq!['\n'] + body + seq!['\n'], block_end(), '\r');
}

/// The removal of `content`, without its trailing newlines, is the join of
/// its kept lines less their trailing empty ones.
proof fn lemma_removed_trimmed(content: Seq<char>)
    ensures
        ({
            let k = kept_lines(content);
            let kp = drop_blank_tail(k);
            &&& trim_end_nl(removed(content)) == join_lines(kp)
            &&& forall|i: int| 0 <= i < kp.len() ==> plain_line(#[trigger] kp[i])
            &&& kp.len() > 0 ==> kp.last().len() > 0
            &&& kp.len() <= k.len()
            &&& forall|i: int| 0 <= i < kp.len() ==> #[trigger] kp[i] == k[i]
        }),
{
    lemma_kept_plain(content);
    let k = kept_lines(content);
    assert forall|i: int| 0 <= i < k.len() implies lacks(#[trigger] k[i], '\n') by {
        assert(plain_line(k[i]));
    }
    let j = join_lines(k);
    if j.len() > 0 && content.len() > 0 && content.last() == '\n' {
        assert(j.push('\n').drop_last() =~= j);
    }
    assert(trim_end_nl(removed(content)) == trim_end_nl(j));
    lemma_trim_join(k);
    let kp = drop_blank_tail(k);
    assert forall|i: int| 0 <= i < kp.len() implies #[trigger] kp[i] == k[i] && plain_line(
        kp[i],
    ) by {
        assert(kp[i] == k[i]);
    }
}

/// A block put into a text that is empty once its blocks and trailing
/// newlines are gone: its lines are the block's, and it is removed to nothing.
proof fn lemma_removed_block_alone(block: Seq<char>)
    requires
        block_ok(block),
    ensures
        lines(block.push('\n')) == split_nl(block),
        removed(block.push('\n')).len() == 0,
{
    lemma_markers();
    lemma_block_shape(block);
    let e = Seq::<char>::empty();
    let blk = split_nl(block);
    let mids = blk.subrange(1, blk.len() - 1);
    let u = block.push('\n');
    assert(u =~= block + seq!['\n'] + e);
    crate::lines::lemma_split_nl_concat(block, e);
    assert(split_nl(e) =~= seq![e]);
    assert(split_nl(u) =~= blk.push(e));
    assert forall|i: int| 0 <= i < split_nl(u).len() - 1 implies !crate::lines::ends_cr(
        #[trigger] split_nl(u)[i],
    ) by {
        assert(split_nl(u)[i] == blk[i]);
    }
    crate::lines::lemma_lines_pieces(u);
    assert(split_nl(u).drop_last() =~= blk);
    assert(lines(u) == blk);
    lemma_strip_block(Seq::empty(), mids);
    assert(strip_blocks(lines(u)) =~= Seq::<Seq<char>>::empty());
}

/// A block put after the kept lines `kp`: the lines are `kp`, an empty line
/// and the block's, and it is removed to those lines and a newline.
#[verifier::rlimit(40)]
proof fn lemma_removed_block_after(kp: Seq<Seq<char>>, block: Seq<char>)
    requires
        block_ok(block),
        kp.len() > 0,
        kp.last().len() > 0,
        forall|i: int| 0 <= i < kp.len() ==> plain_line(#[trigger] kp[i]),
        forall|i: int| 0 <= i < kp.len() ==> !crate::lines::ends_cr(#[trigger] kp[i]),
    ensures
        join_lines(kp).len() > 0,
        lines(join_lines(kp) + seq!['\n', '\n'] + block + seq!['\n']) == kp + seq![
            Seq::<char>::empty(),
        ] + split_nl(block),
        removed(join_lines(kp) + seq!['\n', '\n'] + block + seq!['\n']) == join_lines(kp).push(
            '\n',
        ),
        trim_end_nl(join_lines(kp).push('\n')) == join_lines(kp),
{
    lemma_markers();
    lemma_block_shape(block);
    let e = Seq::<char>::empty();
    let blk = split_nl(block);
    let mids = blk.subrange(1, blk.len() - 1);
    let w = join_lines(kp);
    lemma_join_last(kp);
    let u = w + seq!['\n', '\n'] + block + seq!['\n'];
    let inner = block + seq!['\n'] + e;
    let mid = e + seq!['\n'] + inner;
    assert(u =~= w + seq!['\n'] + mid);
    crate::lines::lemma_split_nl_concat(w, mid);
    crate::lines::lemma_split_nl_concat(e, inner);
    crate::lines::lemma_split_nl_concat(block, e);
    assert forall|i: int| 0 <= i < kp.len() implies lacks(#[trigger] kp[i], '\n') by {
        assert(plain_line(kp[i]));
    }
    crate::lines::lemma_split_join(kp);
    assert(split_nl(e) =~= seq![e]);
    let pu = kp + seq![e] + blk + seq![e];
    assert(split_nl(u) =~= pu);
    assert forall|i: int| 0 <= i < pu.len() - 1 implies !crate::lines::ends_cr(#[trigger] pu[i]) by {
        if i < kp.len() {
            assert(pu[i] == kp[i]);
        } else if i == kp.len() {
            assert(pu[i] == e);
        } else {
            assert(pu[i] == blk[i - kp.len() - 1]);
        }
    }
    crate::lines::lemma_lines_pieces(u);
    let lu = kp + seq![e] + blk;
    assert(split_nl(u).drop_last() =~= lu);
    assert(lines(u) == lu);
    assert forall|i: int| 0 <= i < kp.len() implies !is_marker(#[trigger] kp[i]) by {
        assert(plain_line(kp[i]));
    }
    lemma_strip_plain(Seq::empty(), kp);
    assert(Seq::<Seq<char>>::empty() + kp =~= kp);
    lemma_strip_from_concat(Seq::empty(), false, kp, seq![e]);
    assert(!is_marker(e));
    lemma_strip_plain(kp, seq![e]);
    assert(blk =~= seq![block_start()] + mids + seq![block_end()]);
    assert(lu =~= (kp + seq![e]) + blk);
    lemma_strip_from_concat(Seq::empty(), false, kp + seq![e], blk);
    lemma_strip_block(kp + seq![e], mids);
    assert(pop_blank(kp + seq![e]) =~= kp);
    assert(strip_blocks(lines(u)) == kp);
    assert(removed(u) == w.push('\n'));
    assert(w.push('\n').drop_last() =~= w);
    assert(plain_line(kp[kp.len() - 1]));
    assert(kp.last().last() == kp.last()[kp.last().len() - 1]);
    assert(trim_end_nl(w) == w);
}

/// No kept line of `content` ends with a carriage return.
pub open spec fn kept_without_cr_end(content: Seq<char>) -> bool {
    forall|i: int|
        0 <= i < kept_lines(content).len() ==> !crate::lines::ends_cr(
            #[trigger] kept_lines(content)[i],
        )
}

/// What putting a block into a text gives: the kept lines of the text (less
/// trailing empty ones), an empty line and the block's lines; removing the
/// block again leaves the text without managed blocks and trailing newlines,
/// `w`, and one newline after it.
proof fn lemma_removed_upserted(content: Seq<char>, block: Seq<char>)
    requires
        kept_without_cr_end(content),
        block_ok(block),
    ensures
        ({
            let kp = drop_blank_tail(kept_lines(content));
            let w = trim_end_nl(removed(content));
            let u = upserted(content, block);
            let r = removed(u);
            &&& kp.len() == 0 ==> lines(u) == split_nl(block)
            &&& kp.len() > 0 ==> lines(u) == kp + seq![Seq::<char>::empty()] + split_nl(block)
            &&& w.len() == 0 ==> r.len() == 0
            &&& w.len() > 0 ==> r == w.push('\n')
            &&& trim_end_nl(r) == w
        }),
{
    lemma_removed_trimmed(content);
    let k = kept_lines(content);
    let kp = drop_blank_tail(k);
    if kp.len() == 0 {
        lemma_removed_block_alone(block);
        let r = removed(upserted(content, block));
        assert(r =~= Seq::<char>::empty());
    } else {
        assert forall|i: int| 0 <= i < kp.len() implies !crate::lines::ends_cr(#[trigger] kp[i]) by {
            assert(kp[i] == k[i]);
        }
        lemma_removed_block_after(kp, block);
    }
}

/// Setting the managed block twice gives the same text as setting it once,
/// for every text whose kept lines do not end with a carriage return (so
/// `\r\n` line ends are fine).
pub proof fn law_upsert_idempotent(content: Seq<char>, block: Seq<char>)
    requires
        kept_without_cr_end(content),
        block_ok(block),
    ensures
        upserted(upserted(content, block), block) == upserted(content, block),
{
    lemma_removed_upserted(content, block);
}

proof fn lemma_count_concat(a: Seq<Seq<char>>, b: Seq<Seq<char>>, x: Seq<char>)
    ensures
        count_line(a + b, x) == count_line(a, x) + count_line(b, x),
    decreases b.len(),
{
    if b.len() == 0 {
        assert(a + b =~= a);
    } else {
        lemma_count_concat(a, b.drop_last(), x);
        assert((a + b).drop_last() =~= a + b.drop_last());
    }
}

proof fn lemma_count_single(y: Seq<char>, x: Seq<char>)
    ensures
        count_line(seq![y], x) == if y == x {
            1nat
        } else {
            0nat
        },
{
    reveal_with_fuel(count_line, 2);
    assert(seq![y].drop_last() =~= Seq::<Seq<char>>::empty());
    assert(seq![y].last() == y);
}

proof fn lemma_count_none(ls: Seq<Seq<char>>, x: Seq<char>)
    requires
        forall|i: int| 0 <= i < ls.len() ==> #[trigger] ls[i] != x,
    ensures
        count_line(ls, x) == 0,
    decreases ls.len(),
{
    if ls.len() > 0 {
        let l0 = ls.drop_last();
        assert forall|i: int| 0 <= i < l0.len() implies #[trigger] l0[i] != x by {
            assert(l0[i] == ls[i]);
        }
        lemma_count_none(l0, x);
        assert(ls[ls.len() - 1] != x);
    }
}

/// Setting the managed block leaves exactly one opening-marker line, ends the
/// text with the block and a newline, and keeps every other line in order:
/// the lines are the kept lines of the text (less trailing empty ones), an
/// empty line when there are any, and the block's lines; removing the block
/// again gives what removing from the text gave, up to trailing newlines.
pub proof fn law_upsert_single_block(content: Seq<char>, block: Seq<char>)
    requires
        kept_without_cr_end(content),
        block_ok(block),
    ensures
        ({
            let u = upserted(content, block);
            let kp = drop_blank_tail(kept_lines(content));
            &&& u.len() > block.len()
            &&& u.subrange(u.len() - block.len() - 1, u.len() as int) == block.push('\n')
            &&& count_line(lines(u), block_start()) == 1
            &&& kp.len() == 0 ==> lines(u) == split_nl(block)
            &&& kp.len() > 0 ==> lines(u) == kp + seq![Seq::<char>::empty()] + split_nl(block)
            &&& trim_end_nl(removed(u)) == trim_end_nl(removed(content))
        }),
{
    lemma_markers();
    lemma_removed_upserted(content, block);
    lemma_removed_trimmed(content);
    lemma_block_shape(block);
    let u = upserted(content, block);
    let w = trim_end_nl(removed(content));
    let kp = drop_blank_tail(kept_lines(content));
    let e = Seq::<char>::empty();
    let blk = split_nl(block);
    let mids = blk.subrange(1, blk.len() - 1);
    let n = block.len() as int;
    if w.len() == 0 {
        assert(u.subrange(u.len() - n - 1, u.len() as int) =~= block.push('\n'));
    } else {
        assert(u.subrange(u.len() - n - 1, u.len() as int) =~= block.push('\n'));
    }
    // Exactly one opening marker among the lines.
    assert forall|i: int| 0 <= i < mids.len() implies #[trigger] mids[i] != block_start() by {
        assert(!is_marker(mids[i]));
    }
    lemma_count_none(mids, block_start());
    lemma_count_single(block_start(), block_start());
    lemma_count_single(block_end(), block_start());
    lemma_count_concat(seq![block_start()], mids, block_start());
    lemma_count_concat(seq![block_start()] + mids, seq![block_end()], block_start());
    assert(count_line(blk, block_start()) == 1);
    if kp.len() > 0 {
        assert forall|i: int| 0 <= i < kp.len() implies #[trigger] kp[i] != block_start() by {
            assert(plain_line(kp[i]));
        }
        lemma_count_none(kp, block_start());
        assert(e != block_start());
        lemma_count_single(e, block_start());
        lemma_count_concat(kp, seq![e], block_start());
        lemma_count_concat(kp + seq![e], blk, block_start());
    }
}

/// A text without carriage returns and marker lines that ends in exactly one
/// newline keeps all its lines, and removing from it changes nothing.
#[verifier::rlimit(40)]
proof fn lemma_plain_text_kept(content: Seq<char>)
    requires
        lacks(content, '\r'),
        forall|i: int| 0 <= i < lines(content).len() ==> !is_marker(#[trigger] lines(content)[i]),
        content.len() >= 2,
        content.last() == '\n',
        content[content.len() - 2] != '\n',
    ensures
        kept_without_cr_end(content),
        trim_end_nl(removed(content)) == content.drop_last(),
        content.drop_last().len() > 0,
{
    let e = Seq::<char>::empty();
    let x = content.drop_last();
    assert(content =~= x + seq!['\n'] + e);
    crate::lines::lemma_split_nl_concat(x, e);
    crate::lines::lemma_split_nl_len(x);
    assert(split_nl(e) =~= seq![e]);
    crate::lines::lemma_lines_plain(content);
    assert(split_nl(content).drop_last() =~= split_nl(x));
    assert(lines(content) == split_nl(x));
    lemma_strip_plain(Seq::empty(), split_nl(x));
    assert(Seq::<Seq<char>>::empty() + split_nl(x) =~= split_nl(x));
    assert(kept_lines(content) == split_nl(x));
    assert forall|i: int| 0 <= i < kept_lines(content).len() implies !crate::lines::ends_cr(
        #[trigger] kept_lines(content)[i],
    ) by {
        let l = kept_lines(content)[i];
        assert(lacks(lines(content)[i], '\r'));
        if l.len() > 0 {
            assert(l.last() == l[l.len() - 1]);
        }
    }
    crate::lines::lemma_join_split(x);
    assert(x.len() > 0);
    assert(removed(content) == x.push('\n'));
    assert(x.push('\n').drop_last() =~= x);
    assert(x.last() == content[content.len() - 2]);
    assert(trim_end_nl(x.push('\n')) == trim_end_nl(x));
    assert(trim_end_nl(x) == x);
}

/// Removing the managed block that was just set gives back the text it was set
/// in, when that text held no marker line and no carriage return, and ended in
/// exactly one newline (or was empty).
pub proof fn law_remove_undoes_upsert(content: Seq<char>, block: Seq<char>)
    requires
        lacks(content, '\r'),
        block_ok(block),
        forall|i: int| 0 <= i < lines(content).len() ==> !is_marker(#[trigger] lines(content)[i]),
        content.len() == 0 || (content.len() >= 2 && content.last() == '\n' && content[content.len()
            - 2] != '\n'),
    ensures
        removed(upserted(content, block)) == content,
{
    let e = Seq::<char>::empty();
    if content.len() == 0 {
        assert(split_nl(content) =~= seq![e]);
        assert(lines(content) =~= Seq::<Seq<char>>::empty());
        assert(strip_blocks(lines(content)) =~= Seq::<Seq<char>>::empty());
        assert(kept_without_cr_end(content));
        lemma_removed_upserted(content, block);
        assert(removed(content) == e);
        assert(content =~= e);
    } else {
        lemma_plain_text_kept(content);
        lemma_removed_upserted(content, block);
        assert(content.drop_last().push('\n') =~= content);
    }
}

/// After the managed block is set, the text holds the opening marker.
pub proof fn law_upsert_holds_marker(content: Seq<char>, body: Seq<char>)
    ensures
        crate::text::contains(upserted(content, managed_block(body)), block_start()),
{
    let b = managed_block(body);
    let u = upserted(content, b);
    let w = trim_end_nl(removed(content));
    let n = block_start().len();
    if w.len() == 0 {
        assert(u.subrange(0, n as int) =~= block_start());
        assert(crate::text::occurs_at(u, block_start(), 0));
    } else {
        let at: int = w.len() as int + 2;
        assert(u.subrange(at, at + n) =~= block_start());
        assert(crate::text::occurs_at(u, block_start(), at));
    }
}

/// After the removal no line is a marker line: every managed block is gone.
#[verifier::rlimit(40)]
pub proof fn law_remove_leaves_no_marker(content: Seq<char>)
    requires
        lacks(content, '\r'),
    ensures
        forall|i: int|
            0 <= i < lines(removed(content)).len() ==> !is_marker(
                #[trigger] lines(removed(content))[i],
            ),
{
    let ls = lines(content);
    crate::lines::lemma_lines_plain(content);
    let prop = |l: Seq<char>| lacks(l, '\n') && lacks(l, '\r') && !is_marker(l);
    assert forall|i: int| 0 <= i < ls.len() && !is_marker(#[trigger] ls[i]) implies prop(
        ls[i],
    ) by {
        assert(lacks(ls[i], '\n') && lacks(ls[i], '\r'));
    }
    lemma_strip_keeps(Seq::empty(), false, ls, prop);
    let k = strip_blocks(ls);
    let e = Seq::<char>::empty();
    let r = removed(content);
    if k.len() == 0 {
        assert(join_lines(k).len() == 0);
        assert(r =~= e);
        assert(split_nl(r) =~= seq![e]);
        assert(lines(r) =~= Seq::<Seq<char>>::empty());
    } else {
        assert forall|i: int| 0 <= i < k.len() implies lacks(#[trigger] k[i], '\n') && lacks(
            k[i],
            '\r',
        ) by {
            assert(prop(k[i]));
        }
        crate::lines::lemma_split_join(k);
        lemma_join_lacks(k, '\r');
        let j = join_lines(k);
        if r == j {
            crate::lines::lemma_lines_plain(j);
            assert forall|i: int| 0 <= i < lines(r).len() implies !is_marker(
                #[trigger] lines(r)[i],
            ) by {
                assert(lines(r)[i] == k[i]);
                assert(prop(k[i]));
            }
        } else {
            assert(r == j.push('\n'));
            assert(r =~= j + seq!['\n'] + e);
            crate::lines::lemma_split_nl_concat(j, e);
            assert(split_nl(e) =~= seq![e]);
            lemma_lacks_concat(j, seq!['\n'], '\r');
            crate::lines::lemma_lines_plain(r);
            assert(split_nl(r) =~= k + seq![e]);
            assert(lines(r) =~= k);
            assert forall|i: int| 0 <= i < lines(r).len() implies !is_marker(
                #[trigger] lines(r)[i],
            ) by {
                assert(prop(k[i]));
            }
        }
    }
}

} // verus!
