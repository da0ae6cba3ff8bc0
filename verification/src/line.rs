//! Answers typed on a line: an empty read is asked again, any other line is
//! the answer with the white space around it removed.
use vstd::prelude::*;

verus! {

/// Whether `c` has the Unicode property White_Space.
pub open spec fn is_white_space(c: char) -> bool {
    let n = c as int;
    ||| 0x9 <= n <= 0xD
    ||| n == 0x20
    ||| n == 0x85
    ||| n == 0xA0
    ||| n == 0x1680
    ||| 0x2000 <= n <= 0x200A
    ||| n == 0x2028
    ||| n == 0x2029
    ||| n == 0x202F
    ||| n == 0x205F
    ||| n == 0x3000
}

/// Whether every character of `s` is white space.
pub open spec fn all_white_space(s: Seq<char>) -> bool {
    forall|i: int| 0 <= i < s.len() ==> #[trigger] is_white_space(s[i])
}

/// `s` without the white space at its start.
pub open spec fn trim_start(s: Seq<char>) -> Seq<char>
    decreases s.len(),
{
    if s.len() > 0 && is_white_space(s[0]) {
        trim_start(s.drop_first())
    } else {
        s
    }
}

/// `s` without the white space at its end.
pub open spec fn trim_end(s: Seq<char>) -> Seq<char>
    decreases s.len(),
{
    if s.len() > 0 && is_white_space(s.last()) {
        trim_end(s.drop_last())
    } else {
        s
    }
}

/// `s` without the white space at either end.
pub open spec fn trimmed(s: Seq<char>) -> Seq<char> {
    trim_end(trim_start(s))
}

/// What a line read from the user leads to.
#[derive(Debug, PartialEq, Eq)]
pub enum LineStep {
    /// Nothing was read: ask again.
    Retry,
    /// The answer.
    Done(String),
}

/// Whether `c` is white space, in the sense of `is_white_space`.
fn white_space(c: char) -> (b: bool)
    ensures
        b == is_white_space(c),
{
    let n = c as u32;
    (0x9 <= n && n <= 0xD) || n == 0x20 || n == 0x85 || n == 0xA0 || n == 0x1680 || (0x2000
        <= n && n <= 0x200A) || n == 0x2028 || n == 0x2029 || n == 0x202F || n == 0x205F || n
        == 0x3000
}

/// `s` without the white space at either end.
fn trim_str(s: &str) -> (t: &str)
    ensures
        t@ == trimmed(s@),
{
    let n = s.unicode_len();
    let ghost sv = s@;
    let mut i: usize = 0;
    while i < n && white_space(s.get_char(i))
        invariant
            sv == s@,
            n == sv.len(),
            i <= n,
            all_white_space(sv.subrange(0, i as int)),
        decreases n - i,
    {
        proof {
            assert(sv.subrange(0, i + 1) =~= sv.subrange(0, i as int).push(sv[i as int]));
        }
        i = i + 1;
    }
    let mut j: usize = n;
    while j > i && white_space(s.get_char(j - 1))
        invariant
            sv == s@,
            n == sv.len(),
            i <= j <= n,
            all_white_space(sv.subrange(j as int, n as int)),
        decreases j - i,
    {
        proof {
            assert(sv.subrange(j - 1, n as int) =~= seq![sv[j - 1]] + sv.subrange(j as int, n as int));
        }
        j = j - 1;
    }
    proof {
        let a = sv.subrange(0, i as int);
        let u = sv.subrange(i as int, n as int);
        let m = sv.subrange(i as int, j as int);
        let b = sv.subrange(j as int, n as int);
        assert(a + u =~= sv);
        lemma_trim_start_before_white(a, u);
        // `u` starts with a character that is not white space, or is empty
        assert(trim_start(u) == u);
        assert(m + b =~= u);
        lemma_trim_end_after_white(m, b);
        assert(trim_end(m) == m);
    }
    s.substring_char(i, j)
}

/// The step for a line read from the user: read again when nothing was read,
/// otherwise the line without the white space around it.
pub fn line_step(line: &str) -> (step: LineStep)
    ensures
        (step is Retry) == (line@.len() == 0),
        step matches LineStep::Done(t) ==> t@ == trimmed(line@),
{
    if line.is_empty() {
        LineStep::Retry
    } else {
        LineStep::Done(trim_str(line).to_owned())
    }
}

/// Trimming the start drops a prefix: the result is `s` from some index on,
/// and it is empty or starts with a character that is not white space.
pub proof fn lemma_trim_start_suffix(s: Seq<char>)
    ensures
        exists|i: int| 0 <= i <= s.len() && trim_start(s) == #[trigger] s.subrange(i, s.len() as int),
        trim_start(s).len() == 0 || !is_white_space(trim_start(s)[0]),
    decreases s.len(),
{
    if s.len() > 0 && is_white_space(s[0]) {
        lemma_trim_start_suffix(s.drop_first());
        let i = choose|i: int|
            0 <= i <= s.drop_first().len() && trim_start(s.drop_first()) == #[trigger] s.drop_first().subrange(
                i,
                s.drop_first().len() as int,
            );
        assert(s.drop_first().subrange(i, s.drop_first().len() as int) =~= s.subrange(
            i + 1,
            s.len() as int,
        ));
    } else {
        assert(s.subrange(0, s.len() as int) =~= s);
    }
}

/// Trimming the end drops a suffix: the result is `s` up to some index, and
/// it is empty or ends with a character that is not white space.
pub proof fn lemma_trim_end_prefix(s: Seq<char>)
    ensures
        exists|j: int| 0 <= j <= s.len() && trim_end(s) == #[trigger] s.subrange(0, j),
        trim_end(s).len() == 0 || !is_white_space(trim_end(s).last()),
    decreases s.len(),
{
    if s.len() > 0 && is_white_space(s.last()) {
        lemma_trim_end_prefix(s.drop_last());
        let j = choose|j: int|
            0 <= j <= s.drop_last().len() && trim_end(s.drop_last()) == #[trigger] s.drop_last().subrange(
                0,
                j,
            );
        assert(s.drop_last().subrange(0, j) =~= s.subrange(0, j));
    } else {
        assert(s.subrange(0, s.len() as int) =~= s);
    }
}

/// Trimming the end of a text that does not start with white space keeps
/// its first character.
proof fn lemma_trim_end_keeps_first(s: Seq<char>)
    requires
        s.len() > 0,
        !is_white_space(s[0]),
    ensures
        trim_end(s).len() > 0,
        trim_end(s)[0] == s[0],
    decreases s.len(),
{
    if is_white_space(s.last()) {
        assert(s.len() > 1);
        lemma_trim_end_keeps_first(s.drop_last());
    }
}

/// The answer is a piece of the line: the characters from some index up to
/// some later index.
pub proof fn lemma_trimmed_is_piece(s: Seq<char>)
    ensures
        exists|i: int, j: int| 0 <= i <= j <= s.len() && trimmed(s) == #[trigger] s.subrange(i, j),
{
    lemma_trim_start_suffix(s);
    let i = choose|i: int| 0 <= i <= s.len() && trim_start(s) == #[trigger] s.subrange(i, s.len() as int);
    let t = trim_start(s);
    lemma_trim_end_prefix(t);
    let j = choose|j: int| 0 <= j <= t.len() && trim_end(t) == #[trigger] t.subrange(0, j);
    assert(t.subrange(0, j) =~= s.subrange(i, i + j));
}

/// The answer neither starts nor ends with white space.
pub proof fn lemma_trimmed_has_no_white_ends(s: Seq<char>)
    ensures
        trimmed(s).len() == 0 || (!is_white_space(trimmed(s)[0]) && !is_white_space(
            trimmed(s).last(),
        )),
{
    lemma_trim_start_suffix(s);
    lemma_trim_end_prefix(trim_start(s));
    if trimmed(s).len() > 0 {
        lemma_trim_end_keeps_first(trim_start(s));
    }
}

/// Trimming an answer again changes nothing.
pub proof fn lemma_trimmed_idempotent(s: Seq<char>)
    ensures
        trimmed(trimmed(s)) == trimmed(s),
{
    let u = trimmed(s);
    lemma_trimmed_has_no_white_ends(s);
    assert(trim_start(u) == u);
    assert(trim_end(u) == u);
}

/// White space after a text does not change the end it trims to.
proof fn lemma_trim_end_after_white(t: Seq<char>, b: Seq<char>)
    requires
        all_white_space(b),
    ensures
        trim_end(t + b) == trim_end(t),
    decreases b.len(),
{
    if b.len() > 0 {
        assert(is_white_space(b[b.len() - 1]));
        assert((t + b).last() == b.last());
        assert((t + b).drop_last() =~= t + b.drop_last());
        assert(all_white_space(b.drop_last()));
        lemma_trim_end_after_white(t, b.drop_last());
    } else {
        assert(t + b =~= t);
    }
}

/// A text of white space alone trims to nothing from the start.
proof fn lemma_trim_start_white(a: Seq<char>)
    requires
        all_white_space(a),
    ensures
        trim_start(a).len() == 0,
    decreases a.len(),
{
    if a.len() > 0 {
        assert(is_white_space(a[0]));
        assert(all_white_space(a.drop_first()));
        lemma_trim_start_white(a.drop_first());
    }
}

/// White space before a text does not change the start it trims to.
proof fn lemma_trim_start_before_white(a: Seq<char>, t: Seq<char>)
    requires
        all_white_space(a),
    ensures
        trim_start(a + t) == trim_start(t),
    decreases a.len(),
{
    if a.len() > 0 {
        assert(is_white_space(a[0]));
        assert((a + t)[0] == a[0]);
        assert((a + t).drop_first() =~= a.drop_first() + t);
        assert(all_white_space(a.drop_first()));
        lemma_trim_start_before_white(a.drop_first(), t);
    } else {
        assert(a + t =~= t);
    }
}

/// Trailing white space does not change the answer.
proof fn lemma_trimmed_after_white(t: Seq<char>, b: Seq<char>)
    requires
        all_white_space(b),
    ensures
        trimmed(t + b) == trimmed(t),
    decreases t.len(),
{
    if t.len() > 0 && is_white_space(t[0]) {
        assert((t + b)[0] == t[0]);
        assert((t + b).drop_first() =~= t.drop_first() + b);
        lemma_trimmed_after_white(t.drop_first(), b);
    } else if t.len() > 0 {
        assert((t + b)[0] == t[0]);
        lemma_trim_end_after_white(t, b);
    } else {
        assert(t + b =~= b);
        lemma_trim_start_white(b);
        assert(trim_start(b) =~= trim_start(t));
    }
}

/// The answer is exactly the line without its outer white space: a piece
/// `s[i..j]` of the line with only white space before `i` and from `j` on,
/// and with no white space at either of its ends.
pub proof fn lemma_trimmed_strips_only_outer_white(s: Seq<char>)
    ensures
        exists|i: int, j: int|
            {
                &&& 0 <= i <= j <= s.len()
                &&& trimmed(s) == #[trigger] s.subrange(i, j)
                &&& all_white_space(s.subrange(0, i))
                &&& all_white_space(s.subrange(j, s.len() as int))
                &&& i < j ==> !is_white_space(s[i]) && !is_white_space(s[j - 1])
            },
{
    lemma_trim_start_outer(s);
    let i = choose|i: int|
        0 <= i <= s.len() && trim_start(s) == #[trigger] s.subrange(i, s.len() as int)
            && all_white_space(s.subrange(0, i));
    let t = s.subrange(i, s.len() as int);
    lemma_trim_end_outer(t);
    let j0 = choose|j: int|
        0 <= j <= t.len() && trim_end(t) == #[trigger] t.subrange(0, j) && all_white_space(
            t.subrange(j, t.len() as int),
        );
    assert(t.subrange(0, j0) =~= s.subrange(i, i + j0));
    assert(t.subrange(j0, t.len() as int) =~= s.subrange(i + j0, s.len() as int));
    lemma_trimmed_has_no_white_ends(s);
    if j0 > 0 {
        assert(trimmed(s)[0] == s[i]);
        assert(trimmed(s).last() == s[i + j0 - 1]);
    }
}

/// A line with no white space at its ends is its own answer.
pub proof fn lemma_trimmed_keeps_clean_line(s: Seq<char>)
    requires
        s.len() > 0 ==> !is_white_space(s[0]) && !is_white_space(s.last()),
    ensures
        trimmed(s) == s,
{
}

/// Trimming the start drops white space only: the result is `s` from some
/// index on, and everything before that index is white space.
proof fn lemma_trim_start_outer(s: Seq<char>)
    ensures
        exists|i: int|
            0 <= i <= s.len() && trim_start(s) == #[trigger] s.subrange(i, s.len() as int)
                && all_white_space(s.subrange(0, i)),
    decreases s.len(),
{
    if s.len() > 0 && is_white_space(s[0]) {
        let r = s.drop_first();
        lemma_trim_start_outer(r);
        let i = choose|i: int|
            0 <= i <= r.len() && trim_start(r) == #[trigger] r.subrange(i, r.len() as int)
                && all_white_space(r.subrange(0, i));
        assert(r.subrange(i, r.len() as int) =~= s.subrange(i + 1, s.len() as int));
        assert forall|k: int| 0 <= k < i + 1 implies #[trigger] is_white_space(
            s.subrange(0, i + 1)[k],
        ) by {
            if k > 0 {
                assert(s.subrange(0, i + 1)[k] == r.subrange(0, i)[k - 1]);
            }
        }
    } else {
        assert(s.subrange(0, s.len() as int) =~= s);
    }
}

/// Trimming the end drops white space only: the result is `s` up to some
/// index, and everything from that index on is white space.
proof fn lemma_trim_end_outer(s: Seq<char>)
    ensures
        exists|j: int|
            0 <= j <= s.len() && trim_end(s) == #[trigger] s.subrange(0, j) && all_white_space(
                s.subrange(j, s.len() as int),
            ),
    decreases s.len(),
{
    if s.len() > 0 && is_white_space(s.last()) {
        let r = s.drop_last();
        lemma_trim_end_outer(r);
        let j = choose|j: int|
            0 <= j <= r.len() && trim_end(r) == #[trigger] r.subrange(0, j) && all_white_space(
                r.subrange(j, r.len() as int),
            );
        assert(r.subrange(0, j) =~= s.subrange(0, j));
        assert forall|k: int| 0 <= k < s.len() - j implies #[trigger] is_white_space(
            s.subrange(j, s.len() as int)[k],
        ) by {
            if k < r.len() - j {
                assert(s.subrange(j, s.len() as int)[k] == r.subrange(j, r.len() as int)[k]);
            }
        }
    } else {
        assert(s.subrange(0, s.len() as int) =~= s);
    }
}

/// White space around a text does not change the answer it gives.
pub proof fn lemma_trimmed_ignores_white_around(a: Seq<char>, t: Seq<char>, b: Seq<char>)
    requires
        all_white_space(a),
        all_white_space(b),
    ensures
        trimmed(a + t + b) == trimmed(t),
{
    assert(a + t + b =~= a + (t + b));
    lemma_trim_start_before_white(a, t + b);
    lemma_trimmed_after_white(t, b);
}

} // verus!
