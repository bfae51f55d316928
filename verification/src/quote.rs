//! Quoting a value as one single-quoted word for POSIX shells and for fish.
use vstd::prelude::*;
use crate::lines::lacks;
use crate::text::{chars_of, push_char};

verus! {

/// How one character is written inside a POSIX single-quoted word.
pub open spec fn sh_escape_char(c: char) -> Seq<char> {
    if c == '\'' {
        seq!['\'', '\\', '\'', '\'']
    } else {
        seq![c]
    }
}

/// `s` with each single quote written as `'\''`.
pub open spec fn sh_escape(s: Seq<char>) -> Seq<char>
    decreases s.len(),
{
    if s.len() == 0 {
        Seq::empty()
    } else {
        sh_escape(s.drop_last()) + sh_escape_char(s.last())
    }
}

/// `s` as one single-quoted POSIX shell word.
pub open spec fn sh_quoted(s: Seq<char>) -> Seq<char> {
    seq!['\''] + sh_escape(s) + seq!['\'']
}

/// How one character is written inside a fish single-quoted word.
pub open spec fn fish_escape_char(c: char) -> Seq<char> {
    if c == '\\' {
        seq!['\\', '\\']
    } else if c == '\'' {
        seq!['\\', '\'']
    } else {
        seq![c]
    }
}

/// `s` with each backslash and single quote escaped by a backslash.
pub open spec fn fish_escape(s: Seq<char>) -> Seq<char>
    decreases s.len(),
{
    if s.len() == 0 {
        Seq::empty()
    } else {
        fish_escape(s.drop_last()) + fish_escape_char(s.last())
    }
}

/// `s` as one single-quoted fish word.
pub open spec fn fish_quoted(s: Seq<char>) -> Seq<char> {
    seq!['\''] + fish_escape(s) + seq!['\'']
}

/// `value` as a single-quoted POSIX shell word: `'` + value + `'`, each `'` in it
/// written as `'\''`.
pub fn sh_single_quote(value: &str) -> (r: String)
    ensures
        r@ == sh_quoted(value@),
{
    let v = chars_of(value);
    let mut r = String::new();
    push_char(&mut r, '\'');
    let mut i: usize = 0;
    while i < v.len()
        invariant
            i <= v.len(),
            r@ == seq!['\''] + sh_escape(v@.take(i as int)),
        decreases v.len() - i,
    {
        let c = v[i];
        if c == '\'' {
            push_char(&mut r, '\'');
            push_char(&mut r, '\\');
            push_char(&mut r, '\'');
            push_char(&mut r, '\'');
        } else {
            push_char(&mut r, c);
        }
        proof {
            assert(v@.take(i + 1).drop_last() =~= v@.take(i as int));
            assert(v@.take(i + 1).last() == c);
            assert(r@ =~= seq!['\''] + sh_escape(v@.take(i + 1)));
        }
        i = i + 1;
    }
    push_char(&mut r, '\'');
    assert(v@.take(v.len() as int) =~= value@);
    assert(r@ =~= sh_quoted(value@));
    r
}

/// `value` as a single-quoted fish word: `'` + value + `'`, each `\` in it
/// written as `\\` and each `'` as `\'`.
pub fn fish_single_quote(value: &str) -> (r: String)
    ensures
        r@ == fish_quoted(value@),
{
    let v = chars_of(value);
    let mut r = String::new();
    push_char(&mut r, '\'');
    let mut i: usize = 0;
    while i < v.len()
        invariant
            i <= v.len(),
            r@ == seq!['\''] + fish_escape(v@.take(i as int)),
        decreases v.len() - i,
    {
        let c = v[i];
        if c == '\\' {
            push_char(&mut r, '\\');
            push_char(&mut r, '\\');
        } else if c == '\'' {
            push_char(&mut r, '\\');
            push_char(&mut r, '\'');
        } else {
            push_char(&mut r, c);
        }
        proof {
            assert(v@.take(i + 1).drop_last() =~= v@.take(i as int));
            assert(v@.take(i + 1).last() == c);
            assert(r@ =~= seq!['\''] + fish_escape(v@.take(i + 1)));
        }
        i = i + 1;
    }
    push_char(&mut r, '\'');
    assert(v@.take(v.len() as int) =~= value@);
    assert(r@ =~= fish_quoted(value@));
    r
}

/// The state of a shell reading a word: the characters read so far, whether
/// a single-quoted part is open, whether a backslash waits for its character.
pub struct ReadState {
    pub word: Seq<char>,
    pub quoted: bool,
    pub escaped: bool,
}

/// How a POSIX shell reads one more character of a word made of single-quoted
/// parts and backslash-escaped characters.
pub open spec fn sh_read_step(st: ReadState, c: char) -> ReadState {
    if st.quoted {
        if c == '\'' {
            ReadState { quoted: false, ..st }
        } else {
            ReadState { word: st.word.push(c), ..st }
        }
    } else if st.escaped {
        ReadState { word: st.word.push(c), escaped: false, ..st }
    } else if c == '\'' {
        ReadState { quoted: true, ..st }
    } else if c == '\\' {
        ReadState { escaped: true, ..st }
    } else {
        ReadState { word: st.word.push(c), ..st }
    }
}

/// A POSIX shell reading `s` from the state `st`.
pub open spec fn sh_read_from(st: ReadState, s: Seq<char>) -> ReadState
    decreases s.len(),
{
    if s.len() == 0 {
        st
    } else {
        sh_read_step(sh_read_from(st, s.drop_last()), s.last())
    }
}

/// The word a POSIX shell reads from `s`, if `s` is a complete word.
pub open spec fn sh_word(s: Seq<char>) -> Option<Seq<char>> {
    let st = sh_read_from(ReadState { word: Seq::empty(), quoted: false, escaped: false }, s);
    if st.quoted || st.escaped {
        None
    } else {
        Some(st.word)
    }
}

/// How fish reads one more character of a word made of single-quoted parts:
/// inside them a backslash escapes only a backslash or a single quote.
pub open spec fn fish_read_step(st: ReadState, c: char) -> ReadState {
    if st.quoted && st.escaped {
        if c == '\\' || c == '\'' {
            ReadState { word: st.word.push(c), escaped: false, ..st }
        } else {
            ReadState { word: st.word.push('\\').push(c), escaped: false, ..st }
        }
    } else if st.quoted {
        if c == '\'' {
            ReadState { quoted: false, ..st }
        } else if c == '\\' {
            ReadState { escaped: true, ..st }
        } else {
            ReadState { word: st.word.push(c), ..st }
        }
    } else if st.escaped {
        ReadState { word: st.word.push(c), escaped: false, ..st }
    } else if c == '\'' {
        ReadState { quoted: true, ..st }
    } else if c == '\\' {
        ReadState { escaped: true, ..st }
    } else {
        ReadState { word: st.word.push(c), ..st }
    }
}

/// fish reading `s` from the state `st`.
pub open spec fn fish_read_from(st: ReadState, s: Seq<char>) -> ReadState
    decreases s.len(),
{
    if s.len() == 0 {
        st
    } else {
        fish_read_step(fish_read_from(st, s.drop_last()), s.last())
    }
}

/// The word fish reads from `s`, if `s` is a complete word.
pub open spec fn fish_word(s: Seq<char>) -> Option<Seq<char>> {
    let st = fish_read_from(ReadState { word: Seq::empty(), quoted: false, escaped: false }, s);
    if st.quoted || st.escaped {
        None
    } else {
        Some(st.word)
    }
}

proof fn lemma_sh_read_concat(st: ReadState, a: Seq<char>, b: Seq<char>)
    ensures
        sh_read_from(st, a + b) == sh_read_from(sh_read_from(st, a), b),
    decreases b.len(),
{
    if b.len() == 0 {
        assert(a + b =~= a);
    } else {
        lemma_sh_read_concat(st, a, b.drop_last());
        assert((a + b).drop_last() =~= a + b.drop_last());
    }
}

proof fn lemma_fish_read_concat(st: ReadState, a: Seq<char>, b: Seq<char>)
    ensures
        fish_read_from(st, a + b) == fish_read_from(fish_read_from(st, a), b),
    decreases b.len(),
{
    if b.len() == 0 {
        assert(a + b =~= a);
    } else {
        lemma_fish_read_concat(st, a, b.drop_last());
        assert((a + b).drop_last() =~= a + b.drop_last());
    }
}

proof fn lemma_sh_read_push(st: ReadState, s: Seq<char>, c: char)
    ensures
        sh_read_from(st, s.push(c)) == sh_read_step(sh_read_from(st, s), c),
{
    assert(s.push(c).drop_last() =~= s);
}

proof fn lemma_fish_read_push(st: ReadState, s: Seq<char>, c: char)
    ensures
        fish_read_from(st, s.push(c)) == fish_read_step(fish_read_from(st, s), c),
{
    assert(s.push(c).drop_last() =~= s);
}

proof fn lemma_sh_read_escaped(w: Seq<char>, s: Seq<char>)
    ensures
        sh_read_from(ReadState { word: w, quoted: true, escaped: false }, sh_escape(s))
            == (ReadState { word: w + s, quoted: true, escaped: false }),
    decreases s.len(),
{
    let st = ReadState { word: w, quoted: true, escaped: false };
    let e0 = Seq::<char>::empty();
    if s.len() == 0 {
        assert(sh_escape(s) =~= e0);
        assert(w + s =~= w);
    } else {
        let s0 = s.drop_last();
        let c = s.last();
        lemma_sh_read_escaped(w, s0);
        lemma_sh_read_concat(st, sh_escape(s0), sh_escape_char(c));
        let mid = ReadState { word: w + s0, quoted: true, escaped: false };
        if c == '\'' {
            assert(sh_escape_char(c) =~= e0.push('\'').push('\\').push('\'').push('\''));
            lemma_sh_read_push(mid, e0, '\'');
            lemma_sh_read_push(mid, e0.push('\''), '\\');
            lemma_sh_read_push(mid, e0.push('\'').push('\\'), '\'');
            lemma_sh_read_push(mid, e0.push('\'').push('\\').push('\''), '\'');
        } else {
            assert(sh_escape_char(c) =~= e0.push(c));
            lemma_sh_read_push(mid, e0, c);
        }
        assert((w + s0).push(c) =~= w + s);
    }
}

proof fn lemma_fish_read_escaped(w: Seq<char>, s: Seq<char>)
    ensures
        fish_read_from(ReadState { word: w, quoted: true, escaped: false }, fish_escape(s))
            == (ReadState { word: w + s, quoted: true, escaped: false }),
    decreases s.len(),
{
    let st = ReadState { word: w, quoted: true, escaped: false };
    let e0 = Seq::<char>::empty();
    if s.len() == 0 {
        assert(fish_escape(s) =~= e0);
        assert(w + s =~= w);
    } else {
        let s0 = s.drop_last();
        let c = s.last();
        lemma_fish_read_escaped(w, s0);
        lemma_fish_read_concat(st, fish_escape(s0), fish_escape_char(c));
        let mid = ReadState { word: w + s0, quoted: true, escaped: false };
        if c == '\\' || c == '\'' {
            assert(fish_escape_char(c) =~= e0.push('\\').push(c));
            lemma_fish_read_push(mid, e0, '\\');
            lemma_fish_read_push(mid, e0.push('\\'), c);
        } else {
            assert(fish_escape_char(c) =~= e0.push(c));
            lemma_fish_read_push(mid, e0, c);
        }
        assert((w + s0).push(c) =~= w + s);
    }
}

/// Reading `s` from `st`, a POSIX shell takes every character other than a
/// single quote or a backslash literally: inside a single-quoted part or right
/// after a backslash. So no blank in `s` ends a word and nothing in it is
/// expanded.
pub open spec fn sh_all_literal(st: ReadState, s: Seq<char>) -> bool
    decreases s.len(),
{
    if s.len() == 0 {
        true
    } else {
        let before = sh_read_from(st, s.drop_last());
        &&& sh_all_literal(st, s.drop_last())
        &&& (s.last() == '\'' || s.last() == '\\' || before.quoted || before.escaped)
    }
}

/// Reading `s` from `st`, fish takes every character other than a single quote
/// or a backslash literally: inside a single-quoted part or right after a
/// backslash.
pub open spec fn fish_all_literal(st: ReadState, s: Seq<char>) -> bool
    decreases s.len(),
{
    if s.len() == 0 {
        true
    } else {
        let before = fish_read_from(st, s.drop_last());
        &&& fish_all_literal(st, s.drop_last())
        &&& (s.last() == '\'' || s.last() == '\\' || before.quoted || before.escaped)
    }
}

proof fn lemma_sh_literal_concat(st: ReadState, a: Seq<char>, b: Seq<char>)
    ensures
        sh_all_literal(st, a + b) == (sh_all_literal(st, a) && sh_all_literal(
            sh_read_from(st, a),
            b,
        )),
    decreases b.len(),
{
    if b.len() == 0 {
        assert(a + b =~= a);
    } else {
        lemma_sh_literal_concat(st, a, b.drop_last());
        assert((a + b).drop_last() =~= a + b.drop_last());
        lemma_sh_read_concat(st, a, b.drop_last());
    }
}

proof fn lemma_fish_literal_concat(st: ReadState, a: Seq<char>, b: Seq<char>)
    ensures
        fish_all_literal(st, a + b) == (fish_all_literal(st, a) && fish_all_literal(
            fish_read_from(st, a),
            b,
        )),
    decreases b.len(),
{
    if b.len() == 0 {
        assert(a + b =~= a);
    } else {
        lemma_fish_literal_concat(st, a, b.drop_last());
        assert((a + b).drop_last() =~= a + b.drop_last());
        lemma_fish_read_concat(st, a, b.drop_last());
    }
}

proof fn lemma_sh_literal_push(st: ReadState, s: Seq<char>, c: char)
    ensures
        sh_all_literal(st, s.push(c)) == (sh_all_literal(st, s) && (c == '\'' || c == '\\'
            || sh_read_from(st, s).quoted || sh_read_from(st, s).escaped)),
{
    assert(s.push(c).drop_last() =~= s);
}

proof fn lemma_fish_literal_push(st: ReadState, s: Seq<char>, c: char)
    ensures
        fish_all_literal(st, s.push(c)) == (fish_all_literal(st, s) && (c == '\'' || c == '\\'
            || fish_read_from(st, s).quoted || fish_read_from(st, s).escaped)),
{
    assert(s.push(c).drop_last() =~= s);
}

proof fn lemma_sh_escape_literal(w: Seq<char>, s: Seq<char>)
    ensures
        sh_all_literal(ReadState { word: w, quoted: true, escaped: false }, sh_escape(s)),
    decreases s.len(),
{
    let st = ReadState { word: w, quoted: true, escaped: false };
    let e0 = Seq::<char>::empty();
    if s.len() == 0 {
        assert(sh_escape(s) =~= e0);
    } else {
        let s0 = s.drop_last();
        let c = s.last();
        lemma_sh_escape_literal(w, s0);
        lemma_sh_read_escaped(w, s0);
        lemma_sh_literal_concat(st, sh_escape(s0), sh_escape_char(c));
        let mid = ReadState { word: w + s0, quoted: true, escaped: false };
        if c == '\'' {
            assert(sh_escape_char(c) =~= e0.push('\'').push('\\').push('\'').push('\''));
            lemma_sh_literal_push(mid, e0, '\'');
            lemma_sh_literal_push(mid, e0.push('\''), '\\');
            lemma_sh_literal_push(mid, e0.push('\'').push('\\'), '\'');
            lemma_sh_literal_push(mid, e0.push('\'').push('\\').push('\''), '\'');
        } else {
            assert(sh_escape_char(c) =~= e0.push(c));
            lemma_sh_literal_push(mid, e0, c);
        }
    }
}

proof fn lemma_fish_escape_literal(w: Seq<char>, s: Seq<char>)
    ensures
        fish_all_literal(ReadState { word: w, quoted: true, escaped: false }, fish_escape(s)),
    decreases s.len(),
{
    let st = ReadState { word: w, quoted: true, escaped: false };
    let e0 = Seq::<char>::empty();
    if s.len() == 0 {
        assert(fish_escape(s) =~= e0);
    } else {
        let s0 = s.drop_last();
        let c = s.last();
        lemma_fish_escape_literal(w, s0);
        lemma_fish_read_escaped(w, s0);
        lemma_fish_literal_concat(st, fish_escape(s0), fish_escape_char(c));
        let mid = ReadState { word: w + s0, quoted: true, escaped: false };
        if c == '\\' || c == '\'' {
            assert(fish_escape_char(c) =~= e0.push('\\').push(c));
            lemma_fish_literal_push(mid, e0, '\\');
            lemma_fish_literal_push(mid, e0.push('\\'), c);
        } else {
            assert(fish_escape_char(c) =~= e0.push(c));
            lemma_fish_literal_push(mid, e0, c);
        }
    }
}

/// A POSIX shell reads the quoted value as one word: every character of it
/// but the quotes and backslashes is read literally, so no blank or other
/// special character splits or expands it.
pub proof fn law_sh_quote_is_one_word(value: Seq<char>)
    ensures
        sh_all_literal(ReadState { word: Seq::empty(), quoted: false, escaped: false }, sh_quoted(value)),
{
    let e0 = Seq::<char>::empty();
    let st0 = ReadState { word: e0, quoted: false, escaped: false };
    let open = e0.push('\'');
    assert(seq!['\''] =~= open);
    lemma_sh_literal_push(st0, e0, '\'');
    lemma_sh_read_push(st0, e0, '\'');
    lemma_sh_literal_concat(st0, open, sh_escape(value));
    lemma_sh_escape_literal(e0, value);
    lemma_sh_literal_push(st0, open + sh_escape(value), '\'');
    assert((open + sh_escape(value)).push('\'') =~= sh_quoted(value));
}

/// fish reads the quoted value as one word: every character of it but the
/// quotes and backslashes is read inside the single quotes, so no blank or
/// other special character splits or expands it.
pub proof fn law_fish_quote_is_one_word(value: Seq<char>)
    ensures
        fish_all_literal(
            ReadState { word: Seq::empty(), quoted: false, escaped: false },
            fish_quoted(value),
        ),
{
    let e0 = Seq::<char>::empty();
    let st0 = ReadState { word: e0, quoted: false, escaped: false };
    let open = e0.push('\'');
    assert(seq!['\''] =~= open);
    lemma_fish_literal_push(st0, e0, '\'');
    lemma_fish_read_push(st0, e0, '\'');
    lemma_fish_literal_concat(st0, open, fish_escape(value));
    lemma_fish_escape_literal(e0, value);
    lemma_fish_literal_push(st0, open + fish_escape(value), '\'');
    assert((open + fish_escape(value)).push('\'') =~= fish_quoted(value));
}

/// The quoted word starts and ends with a single quote, and a POSIX shell
/// reads it back as the value.
pub proof fn law_sh_quote_reads_back(value: Seq<char>)
    ensures
        sh_quoted(value).len() >= 2,
        sh_quoted(value)[0] == '\'',
        sh_quoted(value).last() == '\'',
        sh_word(sh_quoted(value)) == Some(value),
{
    let e0 = Seq::<char>::empty();
    let st0 = ReadState { word: e0, quoted: false, escaped: false };
    let open = e0.push('\'');
    assert(seq!['\''] =~= open);
    lemma_sh_read_push(st0, e0, '\'');
    lemma_sh_read_concat(st0, open, sh_escape(value));
    lemma_sh_read_escaped(e0, value);
    assert(e0 + value =~= value);
    lemma_sh_read_push(st0, open + sh_escape(value), '\'');
    assert((open + sh_escape(value)).push('\'') =~= sh_quoted(value));
}

/// The quoted word starts and ends with a single quote, and fish reads it
/// back as the value.
pub proof fn law_fish_quote_reads_back(value: Seq<char>)
    ensures
        fish_quoted(value).len() >= 2,
        fish_quoted(value)[0] == '\'',
        fish_quoted(value).last() == '\'',
        fish_word(fish_quoted(value)) == Some(value),
{
    let e0 = Seq::<char>::empty();
    let st0 = ReadState { word: e0, quoted: false, escaped: false };
    let open = e0.push('\'');
    assert(seq!['\''] =~= open);
    lemma_fish_read_push(st0, e0, '\'');
    lemma_fish_read_concat(st0, open, fish_escape(value));
    lemma_fish_read_escaped(e0, value);
    assert(e0 + value =~= value);
    lemma_fish_read_push(st0, open + fish_escape(value), '\'');
    assert((open + fish_escape(value)).push('\'') =~= fish_quoted(value));
}

/// Quoting adds only quotes and backslashes.
pub proof fn lemma_sh_quoted_lacks(value: Seq<char>, c: char)
    requires
        lacks(value, c),
        c != '\'',
        c != '\\',
    ensures
        lacks(sh_quoted(value), c),
{
    lemma_sh_escape_lacks(value, c);
    let q = sh_quoted(value);
    assert forall|i: int| 0 <= i < q.len() implies q[i] != c by {
        if 0 < i < q.len() - 1 {
            assert(q[i] == sh_escape(value)[i - 1]);
        }
    }
}

proof fn lemma_sh_escape_lacks(value: Seq<char>, c: char)
    requires
        lacks(value, c),
        c != '\'',
        c != '\\',
    ensures
        lacks(sh_escape(value), c),
    decreases value.len(),
{
    if value.len() > 0 {
        let v0 = value.drop_last();
        assert(lacks(v0, c)) by {
            assert forall|i: int| 0 <= i < v0.len() implies v0[i] != c by {
                assert(v0[i] == value[i]);
            }
        }
        lemma_sh_escape_lacks(v0, c);
        assert(value.last() == value[value.len() - 1]);
        let a = sh_escape(v0);
        let b = sh_escape_char(value.last());
        assert forall|i: int| 0 <= i < (a + b).len() implies (a + b)[i] != c by {
            if i < a.len() {
                assert((a + b)[i] == a[i]);
            } else {
                assert((a + b)[i] == b[i - a.len()]);
            }
        }
    }
}

} // verus!
