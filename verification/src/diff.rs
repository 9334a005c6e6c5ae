//! Diff engine: a line-oriented longest-common-subsequence diff of two
//! texts into tagged runs of lines.  Deterministic and total.  The
//! reconstruction law is its contract: concatenating the `Same` and `Add`
//! runs of the result gives the new text back, concatenating the `Same`
//! and `Remove` runs gives the old text back, exactly.

use vstd::prelude::*;

use crate::history::current_text;
use crate::history::previous_text;
use crate::history::spec_snippet_count;
use crate::types::ChangeElement;
use crate::types::ChangeType;

verus! {

/// Relies on std's `String::push`: appends the given character to the end
/// of the string.
pub assume_specification[ String::push ](s: &mut String, c: char)
    ensures
        final (s)@ == old(s)@.push(c),
;

/// Splits a text into lines, accumulating the current unfinished line:
/// each line keeps its terminating newline; a final run without one is a
/// line of its own.
pub open spec fn split_acc(t: Seq<char>, cur: Seq<char>) -> Seq<Seq<char>>
    decreases t.len(),
{
    if t.len() == 0 {
        if cur.len() == 0 {
            Seq::empty()
        } else {
            seq![cur]
        }
    } else if t[0] == '\n' {
        seq![cur.push('\n')] + split_acc(t.skip(1), Seq::empty())
    } else {
        split_acc(t.skip(1), cur.push(t[0]))
    }
}

/// The lines of a text.  Every line except possibly the last ends with a
/// newline, and their concatenation is the text itself.
pub open spec fn spec_split_lines(t: Seq<char>) -> Seq<Seq<char>> {
    split_acc(t, Seq::empty())
}

/// Concatenation of a sequence of texts.
pub open spec fn join_texts(lines: Seq<Seq<char>>) -> Seq<char>
    decreases lines.len(),
{
    if lines.len() == 0 {
        Seq::empty()
    } else {
        lines[0] + join_texts(lines.skip(1))
    }
}

proof fn lemma_join_cons(x: Seq<char>, s: Seq<Seq<char>>)
    ensures
        join_texts(seq![x] + s) == x + join_texts(s),
{
    let t = seq![x] + s;
    assert(t.len() == s.len() + 1);
    assert(t[0] == x);
    assert(t.skip(1) =~= s);
    assert(join_texts(t) == t[0] + join_texts(t.skip(1)));
}

proof fn lemma_join_push(s: Seq<Seq<char>>, x: Seq<char>)
    ensures
        join_texts(s.push(x)) == join_texts(s) + x,
    decreases s.len(),
{
    if s.len() == 0 {
        assert(s.push(x)[0] == x);
        assert(s.push(x).skip(1) =~= Seq::<Seq<char>>::empty());
        assert(join_texts(s.push(x)) == s.push(x)[0] + join_texts(s.push(x).skip(1)));
        assert(join_texts(Seq::<Seq<char>>::empty()) == Seq::<char>::empty());
        assert(x + Seq::<char>::empty() =~= x);
        assert(join_texts(s) + x =~= x);
    } else {
        assert(s.push(x)[0] == s[0]);
        assert(s.push(x).skip(1) =~= s.skip(1).push(x));
        assert(join_texts(s.push(x)) == s.push(x)[0] + join_texts(s.push(x).skip(1)));
        lemma_join_push(s.skip(1), x);
        assert(join_texts(s) == s[0] + join_texts(s.skip(1)));
        assert(s[0] + (join_texts(s.skip(1)) + x) =~= (s[0] + join_texts(s.skip(1))) + x);
    }
}

proof fn lemma_split_acc_join(t: Seq<char>, cur: Seq<char>)
    ensures
        join_texts(split_acc(t, cur)) == cur + t,
    decreases t.len(),
{
    if t.len() == 0 {
        if cur.len() == 0 {
            assert(split_acc(t, cur) =~= Seq::<Seq<char>>::empty());
            assert(join_texts(Seq::<Seq<char>>::empty()) == Seq::<char>::empty());
            assert(cur + t =~= Seq::<char>::empty());
        } else {
            assert(split_acc(t, cur) =~= seq![cur] + Seq::<Seq<char>>::empty());
            lemma_join_cons(cur, Seq::<Seq<char>>::empty());
            assert(join_texts(Seq::<Seq<char>>::empty()) == Seq::<char>::empty());
            assert(cur + Seq::<char>::empty() =~= cur + t);
        }
    } else if t[0] == '\n' {
        let rest = split_acc(t.skip(1), Seq::empty());
        lemma_join_cons(cur.push('\n'), rest);
        lemma_split_acc_join(t.skip(1), Seq::empty());
        assert(Seq::<char>::empty() + t.skip(1) =~= t.skip(1));
        assert(cur.push('\n') + t.skip(1) =~= cur + t);
    } else {
        lemma_split_acc_join(t.skip(1), cur.push(t[0]));
        assert(cur.push(t[0]) + t.skip(1) =~= cur + t);
    }
}

/// The lines of a text concatenate back to the text itself.
pub proof fn lemma_split_lines_join(t: Seq<char>)
    ensures
        join_texts(spec_split_lines(t)) == t,
{
    lemma_split_acc_join(t, Seq::empty());
    assert(Seq::<char>::empty() + t =~= t);
}

proof fn lemma_split_acc_len(t: Seq<char>, cur: Seq<char>)
    ensures
        split_acc(t, cur).len() <= t.len() + (if cur.len() == 0 {
            0int
        } else {
            1int
        }),
    decreases t.len(),
{
    if t.len() == 0 {
    } else if t[0] == '\n' {
        lemma_split_acc_len(t.skip(1), Seq::empty());
    } else {
        lemma_split_acc_len(t.skip(1), cur.push(t[0]));
    }
}

/// A text has at most as many lines as characters.
pub proof fn lemma_split_lines_len(t: Seq<char>)
    ensures
        spec_split_lines(t).len() <= t.len(),
{
    lemma_split_acc_len(t, Seq::empty());
}


/// Length of the longest common subsequence of two line sequences.
pub open spec fn lcs_len(a: Seq<Seq<char>>, b: Seq<Seq<char>>) -> nat
    decreases a.len() + b.len(),
{
    if a.len() == 0 || b.len() == 0 {
        0
    } else if a[0] == b[0] {
        1 + lcs_len(a.skip(1), b.skip(1))
    } else if lcs_len(a.skip(1), b) >= lcs_len(a, b.skip(1)) {
        lcs_len(a.skip(1), b)
    } else {
        lcs_len(a, b.skip(1))
    }
}

/// The diff of two line sequences, one tagged line per step: lines of a
/// longest common subsequence are `Same`; between them, lines only in
/// `a` leave first (`Remove`), then lines only in `b` enter (`Add`).
pub open spec fn spec_diff_lines(a: Seq<Seq<char>>, b: Seq<Seq<char>>) -> Seq<
    (ChangeType, Seq<char>),
>
    decreases a.len() + b.len(),
{
    if a.len() == 0 && b.len() == 0 {
        Seq::empty()
    } else if a.len() > 0 && b.len() > 0 && a[0] == b[0] {
        seq![(ChangeType::Same, a[0])] + spec_diff_lines(a.skip(1), b.skip(1))
    } else if b.len() == 0 || (a.len() > 0 && lcs_len(a.skip(1), b) >= lcs_len(
        a,
        b.skip(1),
    )) {
        seq![(ChangeType::Remove, a[0])] + spec_diff_lines(a.skip(1), b)
    } else {
        seq![(ChangeType::Add, b[0])] + spec_diff_lines(a, b.skip(1))
    }
}

/// Adjacent tagged lines of one tag merged into runs, accumulating the
/// run under construction; contents concatenate.
pub open spec fn merge_acc(
    ops: Seq<(ChangeType, Seq<char>)>,
    cur: (ChangeType, Seq<char>),
) -> Seq<(ChangeType, Seq<char>)>
    decreases ops.len(),
{
    if ops.len() == 0 {
        seq![cur]
    } else if ops[0].0 == cur.0 {
        merge_acc(ops.skip(1), (cur.0, cur.1 + ops[0].1))
    } else {
        seq![cur] + merge_acc(ops.skip(1), ops[0])
    }
}

/// Tagged lines merged into maximal runs.
pub open spec fn spec_merge(ops: Seq<(ChangeType, Seq<char>)>) -> Seq<
    (ChangeType, Seq<char>),
> {
    if ops.len() == 0 {
        Seq::empty()
    } else {
        merge_acc(ops.skip(1), ops[0])
    }
}

/// The diff of two texts: their lines diffed along a longest common
/// subsequence, merged into runs.
pub open spec fn spec_diff(old: Seq<char>, new: Seq<char>) -> Seq<(ChangeType, Seq<char>)> {
    spec_merge(spec_diff_lines(spec_split_lines(old), spec_split_lines(new)))
}

/// The tag and content of each run.
pub open spec fn run_pairs(s: Seq<ChangeElement>) -> Seq<(ChangeType, Seq<char>)> {
    s.map_values(|e: ChangeElement| (e.type_, e.content@))
}

proof fn lemma_diff_lines_all_add(b: Seq<Seq<char>>)
    ensures
        spec_diff_lines(Seq::empty(), b) == b.map_values(
            |l: Seq<char>| (ChangeType::Add, l),
        ),
    decreases b.len(),
{
    let pairs = b.map_values(|l: Seq<char>| (ChangeType::Add, l));
    if b.len() == 0 {
        assert(spec_diff_lines(Seq::empty(), b) =~= pairs);
    } else {
        lemma_diff_lines_all_add(b.skip(1));
        assert(spec_diff_lines(Seq::<Seq<char>>::empty(), b) == seq![
            (ChangeType::Add, b[0]),
        ] + spec_diff_lines(Seq::<Seq<char>>::empty(), b.skip(1)));
        assert(b.skip(1).map_values(|l: Seq<char>| (ChangeType::Add, l)) =~= pairs.skip(1));
        assert(seq![(ChangeType::Add, b[0])] + pairs.skip(1) =~= pairs);
    }
}

proof fn lemma_diff_lines_all_remove(a: Seq<Seq<char>>)
    ensures
        spec_diff_lines(a, Seq::empty()) == a.map_values(
            |l: Seq<char>| (ChangeType::Remove, l),
        ),
    decreases a.len(),
{
    let pairs = a.map_values(|l: Seq<char>| (ChangeType::Remove, l));
    if a.len() == 0 {
        assert(spec_diff_lines(a, Seq::empty()) =~= pairs);
    } else {
        lemma_diff_lines_all_remove(a.skip(1));
        assert(spec_diff_lines(a, Seq::<Seq<char>>::empty()) == seq![
            (ChangeType::Remove, a[0]),
        ] + spec_diff_lines(a.skip(1), Seq::<Seq<char>>::empty()));
        assert(a.skip(1).map_values(|l: Seq<char>| (ChangeType::Remove, l)) =~= pairs.skip(
            1,
        ));
        assert(seq![(ChangeType::Remove, a[0])] + pairs.skip(1) =~= pairs);
    }
}

proof fn lemma_merge_uniform(ops: Seq<(ChangeType, Seq<char>)>, cur: (ChangeType, Seq<char>))
    requires
        forall|k: int| 0 <= k < ops.len() ==> (#[trigger] ops[k]).0 == cur.0,
    ensures
        merge_acc(ops, cur) == seq![
            (
                cur.0,
                cur.1 + join_texts(ops.map_values(|p: (ChangeType, Seq<char>)| p.1)),
            ),
        ],
    decreases ops.len(),
{
    let tails = ops.map_values(|p: (ChangeType, Seq<char>)| p.1);
    if ops.len() == 0 {
        assert(tails.len() == 0);
        assert(join_texts(tails) == Seq::<char>::empty());
        assert(cur.1 + Seq::<char>::empty() =~= cur.1);
        assert(seq![cur] =~= seq![(cur.0, cur.1 + join_texts(tails))]);
    } else {
        assert(ops[0].0 == cur.0);
        assert(forall|k: int|
            0 <= k < ops.skip(1).len() ==> (#[trigger] ops.skip(1)[k]).0 == cur.0);
        lemma_merge_uniform(ops.skip(1), (cur.0, cur.1 + ops[0].1));
        assert(ops.skip(1).map_values(|p: (ChangeType, Seq<char>)| p.1) =~= tails.skip(1));
        assert(tails[0] == ops[0].1);
        assert(join_texts(tails) == tails[0] + join_texts(tails.skip(1)));
        assert((cur.1 + ops[0].1) + join_texts(tails.skip(1)) =~= cur.1 + (ops[0].1
            + join_texts(tails.skip(1))));
    }
}

/// Splits a text into its lines.  Each line keeps its terminating newline;
/// the final line may lack one.
pub fn split_lines(text: &str) -> (r: Vec<String>)
    ensures
        r@.map_values(|l: String| l@) == spec_split_lines(text@),
{
    let n = text.unicode_len();
    let mut lines: Vec<String> = Vec::new();
    let mut cur = String::new();
    let mut i: usize = 0;
    proof {
        assert(text@.skip(0) =~= text@);
        assert(lines@.map_values(|l: String| l@) =~= Seq::<Seq<char>>::empty());
        assert(Seq::<Seq<char>>::empty() + spec_split_lines(text@) =~= spec_split_lines(
            text@,
        ));
    }
    while i < n
        invariant
            n == text@.len(),
            i <= n,
            spec_split_lines(text@) == lines@.map_values(|l: String| l@) + split_acc(
                text@.skip(i as int),
                cur@,
            ),
        decreases n - i,
    {
        let c = text.get_char(i);
        proof {
            assert(text@.skip(i as int)[0] == text@[i as int]);
            assert(text@.skip(i as int).skip(1) =~= text@.skip(i + 1));
        }
        if c == '\n' {
            cur.push('\n');
            let ghost prev_lines = lines@;
            lines.push(cur);
            cur = String::new();
            proof {
                assert(lines@.map_values(|l: String| l@) =~= prev_lines.map_values(
                    |l: String| l@,
                ).push(lines@.last()@));
                assert(prev_lines.map_values(|l: String| l@) + (seq![lines@.last()@] + split_acc(
                    text@.skip(i + 1),
                    Seq::empty(),
                )) =~= lines@.map_values(|l: String| l@) + split_acc(
                    text@.skip(i + 1),
                    Seq::empty(),
                ));
            }
        } else {
            cur.push(c);
        }
        i = i + 1;
    }
    proof {
        assert(text@.skip(n as int) =~= Seq::<char>::empty());
    }
    if cur.as_str().unicode_len() > 0 {
        let ghost prev_lines = lines@;
        lines.push(cur);
        proof {
            assert(lines@.map_values(|l: String| l@) =~= prev_lines.map_values(
                |l: String| l@,
            ).push(lines@.last()@));
            assert(prev_lines.map_values(|l: String| l@) + seq![lines@.last()@]
                =~= lines@.map_values(|l: String| l@));
        }
    } else {
        proof {
            assert(lines@.map_values(|l: String| l@) + Seq::<Seq<char>>::empty()
                =~= lines@.map_values(|l: String| l@));
        }
    }
    lines
}

/// Suffix table of the longest common subsequence of two line sequences:
/// entry `(i, j)` holds the length of the longest common subsequence of
/// `a[i..]` and `b[j..]`.
fn build_table(a: &Vec<String>, b: &Vec<String>) -> (t: Vec<Vec<usize>>)
    requires
        a@.len() < usize::MAX,
        b@.len() < usize::MAX,
    ensures
        t@.len() == a@.len() + 1,
        forall|i: int| 0 <= i <= a@.len() ==> #[trigger] t@[i]@.len() == b@.len() + 1,
        forall|i: int, j: int|
            0 <= i <= a@.len() && 0 <= j <= b@.len() ==> #[trigger] t@[i]@[j] == lcs_len(
                a@.map_values(|l: String| l@).skip(i),
                b@.map_values(|l: String| l@).skip(j),
            ),
{
    let ghost alines = a@.map_values(|l: String| l@);
    let ghost blines = b@.map_values(|l: String| l@);
    let n = a.len();
    let m = b.len();
    // Rows are produced from the bottom (`i == n`) up, collected in
    // reverse, and put into place at the end.
    let mut rev: Vec<Vec<usize>> = Vec::new();
    let mut zero_row: Vec<usize> = Vec::new();
    while zero_row.len() <= m
        invariant
            m == b@.len(),
            m < usize::MAX,
            zero_row@.len() <= m + 1,
            forall|j: int| 0 <= j < zero_row@.len() ==> zero_row@[j] == 0,
        decreases m + 1 - zero_row.len(),
    {
        zero_row.push(0);
    }
    proof {
        assert(alines.skip(n as int) =~= Seq::<Seq<char>>::empty());
        assert(forall|jj: int|
            0 <= jj <= m ==> lcs_len(alines.skip(n as int), #[trigger] blines.skip(jj))
                == 0);
    }
    rev.push(zero_row);
    let mut i: usize = n;
    while i > 0
        invariant
            n == a@.len(),
            m == b@.len(),
            n < usize::MAX,
            m < usize::MAX,
            i <= n,
            rev@.len() == n - i + 1,
            alines == a@.map_values(|l: String| l@),
            blines == b@.map_values(|l: String| l@),
            forall|k: int| 0 <= k < rev@.len() ==> #[trigger] rev@[k]@.len() == m + 1,
            forall|k: int, j: int|
                0 <= k < rev@.len() && 0 <= j <= m ==> #[trigger] rev@[k]@[j] <= k,
            forall|k: int, j: int|
                0 <= k < rev@.len() && 0 <= j <= m ==> #[trigger] rev@[k]@[j] == lcs_len(
                    alines.skip(n - k),
                    blines.skip(j),
                ),
        decreases i,
    {
        i = i - 1;
        let below_index = rev.len() - 1;
        let mut row: Vec<usize> = Vec::new();
        while row.len() <= m
            invariant
                m < usize::MAX,
                row@.len() <= m + 1,
                forall|j: int| 0 <= j < row@.len() ==> row@[j] == 0,
            decreases m + 1 - row.len(),
        {
            row.push(0);
        }
        proof {
            assert(blines.skip(m as int) =~= Seq::<Seq<char>>::empty());
            assert(lcs_len(alines.skip(i as int), blines.skip(m as int)) == 0);
        }
        let mut j: usize = m;
        while j > 0
            invariant
                n == a@.len(),
                m == b@.len(),
                n < usize::MAX,
                m < usize::MAX,
                i < n,
                j <= m,
                below_index == rev@.len() - 1,
                rev@.len() >= 1,
                rev@.len() == n - i,
                alines == a@.map_values(|l: String| l@),
                blines == b@.map_values(|l: String| l@),
                forall|k: int| 0 <= k < rev@.len() ==> #[trigger] rev@[k]@.len() == m + 1,
                forall|k: int, jj: int|
                    0 <= k < rev@.len() && 0 <= jj <= m ==> #[trigger] rev@[k]@[jj] <= k,
                forall|k: int, jj: int|
                    0 <= k < rev@.len() && 0 <= jj <= m ==> #[trigger] rev@[k]@[jj]
                        == lcs_len(alines.skip(n - k), blines.skip(jj)),
                row@.len() == m + 1,
                forall|jj: int| 0 <= jj <= m ==> #[trigger] row@[jj] <= rev@.len(),
                forall|jj: int|
                    j <= jj <= m ==> #[trigger] row@[jj] == lcs_len(
                        alines.skip(i as int),
                        blines.skip(jj),
                    ),
            decreases j,
        {
            j = j - 1;
            proof {
                assert(alines.skip(i as int).len() > 0);
                assert(blines.skip(j as int).len() > 0);
                assert(alines.skip(i as int)[0] == alines[i as int]);
                assert(blines.skip(j as int)[0] == blines[j as int]);
                assert(alines.skip(i as int).skip(1) =~= alines.skip(i + 1));
                assert(blines.skip(j as int).skip(1) =~= blines.skip(j + 1));
                assert(a@[i as int]@ == alines[i as int]);
                assert(b@[j as int]@ == blines[j as int]);
                assert(n - below_index == i + 1);
            }
            let heads_equal = a[i] == b[j];
            let value: usize = if heads_equal {
                rev[below_index][j + 1] + 1
            } else {
                let down = rev[below_index][j];
                let right = row[j + 1];
                if down >= right {
                    down
                } else {
                    right
                }
            };
            proof {
                if heads_equal {
                    assert(alines.skip(i as int)[0] == blines.skip(j as int)[0]);
                    assert(value == lcs_len(alines.skip(i + 1), blines.skip(j + 1)) + 1);
                    assert(value == lcs_len(alines.skip(i as int), blines.skip(j as int)));
                } else {
                    assert(alines.skip(i as int)[0] != blines.skip(j as int)[0]);
                    assert(value == lcs_len(alines.skip(i as int), blines.skip(j as int)));
                }
            }
            row[j] = value;
        }
        rev.push(row);
    }
    // Reverse the collected rows so that row `i` sits at index `i`.
    let ghost rev_snapshot = rev@;
    let mut t: Vec<Vec<usize>> = Vec::new();
    while rev.len() > 0
        invariant
            rev_snapshot.len() == n + 1,
            rev@ =~= rev_snapshot.take(rev@.len() as int),
            t@.len() + rev@.len() == n + 1,
            alines == a@.map_values(|l: String| l@),
            blines == b@.map_values(|l: String| l@),
            n == a@.len(),
            m == b@.len(),
            forall|k: int|
                0 <= k < rev_snapshot.len() ==> #[trigger] rev_snapshot[k]@.len() == m + 1,
            forall|k: int, jj: int|
                0 <= k < rev_snapshot.len() && 0 <= jj <= m ==> #[trigger] rev_snapshot[k]@[jj]
                    == lcs_len(alines.skip(n - k), blines.skip(jj)),
            forall|k: int|
                0 <= k < t@.len() ==> #[trigger] t@[k] == rev_snapshot[n - k],
        decreases rev.len(),
    {
        let row = rev.pop().unwrap();
        t.push(row);
    }
    proof {
        assert(forall|k: int| 0 <= k <= n ==> #[trigger] t@[k]@.len() == m + 1);
        assert(forall|k: int, jj: int|
            0 <= k <= n && 0 <= jj <= m ==> #[trigger] t@[k]@[jj] == lcs_len(
                alines.skip(k),
                blines.skip(jj),
            ));
    }
    t
}

proof fn lemma_take_one_more<A>(s: Seq<A>, i: int)
    requires
        0 <= i < s.len(),
    ensures
        s.take(i + 1) =~= s.take(i).push(s[i]),
{
}

/// All-`Same` element runs reconstruct the same text on both sides.
proof fn lemma_all_same_texts_equal(s: Seq<ChangeElement>)
    requires
        forall|k: int| 0 <= k < s.len() ==> (#[trigger] s[k].type_) is Same,
    ensures
        current_text(s) == previous_text(s),
    decreases s.len(),
{
    if s.len() > 0 {
        lemma_all_same_texts_equal(s.drop_last());
    }
}

/// A run sequence without `Add` or `Remove` runs has snippet count zero,
/// and conversely.
proof fn lemma_count_zero_iff_all_same(s: Seq<ChangeElement>)
    ensures
        spec_snippet_count(s) == 0 <==> (forall|k: int|
            0 <= k < s.len() ==> (#[trigger] s[k].type_) is Same),
    decreases s.len(),
{
    if s.len() > 0 {
        lemma_count_zero_iff_all_same(s.drop_last());
        if spec_snippet_count(s) == 0 {
            assert(forall|k: int|
                0 <= k < s.len() - 1 ==> #[trigger] s[k] == s.drop_last()[k]);
        }
    }
}

/// Merges adjacent runs of the same tag into single elements, so that the
/// log stays compact.  Reconstruction of either side is unchanged.
#[verifier::rlimit(100)]
fn merge_runs(ops: Vec<ChangeElement>) -> (r: Vec<ChangeElement>)
    ensures
        current_text(r@) == current_text(ops@),
        previous_text(r@) == previous_text(ops@),
        run_pairs(r@) == spec_merge(run_pairs(ops@)),
        forall|k: int| 0 <= k < r@.len() - 1 ==> (#[trigger] r@[k].type_) != r@[k + 1].type_,
        (forall|k: int| 0 <= k < ops@.len() ==> (#[trigger] ops@[k].type_) is Same)
            ==> (forall|k: int| 0 <= k < r@.len() ==> (#[trigger] r@[k].type_) is Same),
{
    let ghost pairs = run_pairs(ops@);
    let mut r: Vec<ChangeElement> = Vec::new();
    if ops.len() == 0 {
        proof {
            assert(run_pairs(r@) =~= Seq::<(ChangeType, Seq<char>)>::empty());
            assert(run_pairs(ops@).len() == 0);
        }
        return r;
    }
    let mut cur = ops[0].clone();
    let mut i: usize = 1;
    proof {
        assert(ops@.take(1).drop_last() =~= Seq::<ChangeElement>::empty());
        assert(ops@.take(1).last() == ops@[0]);
        assert(r@.push(cur).drop_last() =~= r@);
        assert(r@.push(cur).last() == cur);
        assert(current_text(r@) == Seq::<char>::empty());
        assert(previous_text(r@) == Seq::<char>::empty());
        assert(pairs.len() == ops@.len());
        assert(pairs[0] == (ops@[0].type_, ops@[0].content@));
        assert(spec_merge(pairs) == merge_acc(pairs.skip(1), pairs[0]));
        assert(run_pairs(r@) =~= Seq::<(ChangeType, Seq<char>)>::empty());
        assert(Seq::<(ChangeType, Seq<char>)>::empty() + merge_acc(
            pairs.skip(1),
            (cur.type_, cur.content@),
        ) =~= merge_acc(pairs.skip(1), (cur.type_, cur.content@)));
    }
    while i < ops.len()
        invariant
            1 <= i <= ops@.len(),
            pairs == run_pairs(ops@),
            pairs.len() == ops@.len(),
            current_text(r@.push(cur)) == current_text(ops@.take(i as int)),
            previous_text(r@.push(cur)) == previous_text(ops@.take(i as int)),
            spec_merge(pairs) == run_pairs(r@) + merge_acc(
                pairs.skip(i as int),
                (cur.type_, cur.content@),
            ),
            forall|k: int| 0 <= k < r@.len() - 1 ==> (#[trigger] r@[k].type_) != r@[k + 1].type_,
            r@.len() > 0 ==> r@.last().type_ != cur.type_,
            (forall|k: int| 0 <= k < i ==> (#[trigger] ops@[k].type_) is Same) ==> ((
            forall|k: int| 0 <= k < r@.len() ==> (#[trigger] r@[k].type_) is Same)
                && cur.type_ is Same),
        decreases ops@.len() - i,
    {
        proof {
            lemma_take_one_more(ops@, i as int);
            assert(ops@.take(i + 1).drop_last() =~= ops@.take(i as int));
            assert(pairs.skip(i as int)[0] == pairs[i as int]);
            assert(pairs[i as int] == (ops@[i as int].type_, ops@[i as int].content@));
            assert(pairs.skip(i as int).skip(1) =~= pairs.skip(i + 1));
        }
        if ops[i].type_ == cur.type_ {
            let ghost old_cur = cur;
            cur.content.append(ops[i].content.as_str());
            proof {
                assert(r@.push(cur).drop_last() =~= r@);
                assert(r@.push(cur).last() == cur);
                assert(r@.push(old_cur).drop_last() =~= r@);
                assert(r@.push(old_cur).last() == old_cur);
                assert(current_text(r@) + (old_cur.content@ + ops@[i as int].content@)
                    =~= (current_text(r@) + old_cur.content@) + ops@[i as int].content@);
                assert(previous_text(r@) + (old_cur.content@ + ops@[i as int].content@)
                    =~= (previous_text(r@) + old_cur.content@) + ops@[i as int].content@);
                assert(current_text(r@) + Seq::<char>::empty() =~= current_text(r@));
                assert(previous_text(r@) + Seq::<char>::empty() =~= previous_text(r@));
                assert(merge_acc(pairs.skip(i as int), (old_cur.type_, old_cur.content@))
                    == merge_acc(pairs.skip(i + 1), (cur.type_, cur.content@)));
            }
        } else {
            let next = ops[i].clone();
            let ghost old_r = r@;
            let ghost old_cur = cur;
            r.push(cur);
            cur = next;
            proof {
                assert(r@.push(cur).drop_last() =~= r@);
                assert(r@.push(cur).last() == cur);
                assert(r@ == old_r.push(old_cur));
                assert(forall|k: int| 0 <= k < old_r.len() ==> r@[k] == old_r[k]);
                assert(merge_acc(pairs.skip(i as int), (old_cur.type_, old_cur.content@))
                    == seq![(old_cur.type_, old_cur.content@)] + merge_acc(
                    pairs.skip(i + 1),
                    (cur.type_, cur.content@),
                ));
                assert(run_pairs(r@) =~= run_pairs(old_r).push(
                    (old_cur.type_, old_cur.content@),
                ));
                assert(run_pairs(old_r) + (seq![(old_cur.type_, old_cur.content@)]
                    + merge_acc(pairs.skip(i + 1), (cur.type_, cur.content@)))
                    =~= run_pairs(r@) + merge_acc(
                    pairs.skip(i + 1),
                    (cur.type_, cur.content@),
                ));
            }
        }
        i = i + 1;
    }
    proof {
        assert(ops@.take(ops@.len() as int) =~= ops@);
        assert(pairs.skip(ops@.len() as int) =~= Seq::<(ChangeType, Seq<char>)>::empty());
        assert(merge_acc(
            Seq::<(ChangeType, Seq<char>)>::empty(),
            (cur.type_, cur.content@),
        ) == seq![(cur.type_, cur.content@)]);
    }
    let ghost before = r@;
    r.push(cur);
    proof {
        assert(run_pairs(r@) =~= run_pairs(before).push((cur.type_, cur.content@)));
        assert(run_pairs(before) + seq![(cur.type_, cur.content@)] =~= run_pairs(r@));
    }
    r
}

/// Walks the longest-common-subsequence table of two line sequences and
/// emits one tagged element per line: `Same` along common lines, `Remove`
/// for lines only in `a`, `Add` for lines only in `b`.
#[verifier::rlimit(100)]
fn diff_lines(a: &Vec<String>, b: &Vec<String>, t: &Vec<Vec<usize>>) -> (ops: Vec<
    ChangeElement,
>)
    requires
        t@.len() == a@.len() + 1,
        forall|k: int| 0 <= k <= a@.len() ==> #[trigger] t@[k]@.len() == b@.len() + 1,
        forall|k: int, j: int|
            0 <= k <= a@.len() && 0 <= j <= b@.len() ==> #[trigger] t@[k]@[j] == lcs_len(
                a@.map_values(|l: String| l@).skip(k),
                b@.map_values(|l: String| l@).skip(j),
            ),
    ensures
        previous_text(ops@) == join_texts(a@.map_values(|l: String| l@)),
        current_text(ops@) == join_texts(b@.map_values(|l: String| l@)),
        run_pairs(ops@) == spec_diff_lines(
            a@.map_values(|l: String| l@),
            b@.map_values(|l: String| l@),
        ),
        a@.map_values(|l: String| l@) == b@.map_values(|l: String| l@) ==> forall|k: int|
            0 <= k < ops@.len() ==> (#[trigger] ops@[k].type_) is Same,
{
    let ghost alines = a@.map_values(|l: String| l@);
    let ghost blines = b@.map_values(|l: String| l@);
    let n = a.len();
    let m = b.len();
    let mut ops: Vec<ChangeElement> = Vec::new();
    let mut i: usize = 0;
    let mut j: usize = 0;
    proof {
        assert(alines.take(0) =~= Seq::<Seq<char>>::empty());
        assert(blines.take(0) =~= Seq::<Seq<char>>::empty());
        assert(join_texts(Seq::<Seq<char>>::empty()) == Seq::<char>::empty());
        assert(current_text(ops@) == Seq::<char>::empty());
        assert(previous_text(ops@) == Seq::<char>::empty());
        assert(alines.skip(0) =~= alines);
        assert(blines.skip(0) =~= blines);
        assert(run_pairs(ops@) =~= Seq::<(ChangeType, Seq<char>)>::empty());
        assert(Seq::<(ChangeType, Seq<char>)>::empty() + spec_diff_lines(alines, blines)
            =~= spec_diff_lines(alines, blines));
    }
    while i < n || j < m
        invariant
            n == a@.len(),
            m == b@.len(),
            alines == a@.map_values(|l: String| l@),
            blines == b@.map_values(|l: String| l@),
            t@.len() == n + 1,
            forall|k: int| 0 <= k <= n ==> #[trigger] t@[k]@.len() == m + 1,
            i <= n,
            j <= m,
            forall|k: int, jj: int|
                0 <= k <= n && 0 <= jj <= m ==> #[trigger] t@[k]@[jj] == lcs_len(
                    alines.skip(k),
                    blines.skip(jj),
                ),
            previous_text(ops@) == join_texts(alines.take(i as int)),
            current_text(ops@) == join_texts(blines.take(j as int)),
            spec_diff_lines(alines, blines) == run_pairs(ops@) + spec_diff_lines(
                alines.skip(i as int),
                blines.skip(j as int),
            ),
            alines == blines ==> i == j && (forall|k: int|
                0 <= k < ops@.len() ==> (#[trigger] ops@[k].type_) is Same),
        decreases (n - i) + (m - j),
    {
        let ghost old_ops = ops@;
        let ghost va = alines.skip(i as int);
        let ghost vb = blines.skip(j as int);
        proof {
            if i < n {
                assert(va[0] == alines[i as int]);
                assert(a@[i as int]@ == alines[i as int]);
                assert(va.skip(1) =~= alines.skip(i + 1));
            }
            if j < m {
                assert(vb[0] == blines[j as int]);
                assert(b@[j as int]@ == blines[j as int]);
                assert(vb.skip(1) =~= blines.skip(j + 1));
            }
        }
        if i < n && j < m && a[i] == b[j] {
            ops.push(ChangeElement { type_: ChangeType::Same, content: a[i].clone() });
            proof {
                assert(ops@.drop_last() =~= old_ops);
                assert(ops@.last().type_ is Same);
                assert(forall|k: int| 0 <= k < old_ops.len() ==> ops@[k] == old_ops[k]);
                lemma_take_one_more(alines, i as int);
                lemma_join_push(alines.take(i as int), alines[i as int]);
                lemma_take_one_more(blines, j as int);
                lemma_join_push(blines.take(j as int), blines[j as int]);
                assert(spec_diff_lines(va, vb) == seq![(ChangeType::Same, va[0])]
                    + spec_diff_lines(va.skip(1), vb.skip(1)));
                assert(run_pairs(ops@) =~= run_pairs(old_ops).push(
                    (ChangeType::Same, alines[i as int]),
                ));
                assert(run_pairs(old_ops) + (seq![(ChangeType::Same, va[0])]
                    + spec_diff_lines(alines.skip(i + 1), blines.skip(j + 1)))
                    =~= run_pairs(ops@) + spec_diff_lines(
                    alines.skip(i + 1),
                    blines.skip(j + 1),
                ));
            }
            i = i + 1;
            j = j + 1;
        } else if j == m || (i < n && t[i + 1][j] >= t[i][j + 1]) {
            ops.push(ChangeElement { type_: ChangeType::Remove, content: a[i].clone() });
            proof {
                assert(ops@.drop_last() =~= old_ops);
                assert(forall|k: int| 0 <= k < old_ops.len() ==> ops@[k] == old_ops[k]);
                if alines == blines {
                    assert(alines.len() == blines.len());
                    assert(a@[i as int]@ == alines[i as int]);
                    assert(false);
                }
                lemma_take_one_more(alines, i as int);
                lemma_join_push(alines.take(i as int), alines[i as int]);
                assert(i < n);
                if j == m {
                    assert(vb.len() == 0);
                } else {
                    assert(va[0] != vb[0]);
                    assert(lcs_len(alines.skip(i + 1), blines.skip(j as int)) >= lcs_len(
                        alines.skip(i as int),
                        blines.skip(j + 1),
                    ));
                    assert(lcs_len(va.skip(1), vb) >= lcs_len(va, vb.skip(1)));
                }
                assert(spec_diff_lines(va, vb) == seq![(ChangeType::Remove, va[0])]
                    + spec_diff_lines(va.skip(1), vb));
                assert(run_pairs(ops@) =~= run_pairs(old_ops).push(
                    (ChangeType::Remove, alines[i as int]),
                ));
                assert(run_pairs(old_ops) + (seq![(ChangeType::Remove, va[0])]
                    + spec_diff_lines(alines.skip(i + 1), blines.skip(j as int)))
                    =~= run_pairs(ops@) + spec_diff_lines(
                    alines.skip(i + 1),
                    blines.skip(j as int),
                ));
            }
            i = i + 1;
        } else {
            ops.push(ChangeElement { type_: ChangeType::Add, content: b[j].clone() });
            proof {
                assert(ops@.drop_last() =~= old_ops);
                assert(forall|k: int| 0 <= k < old_ops.len() ==> ops@[k] == old_ops[k]);
                if alines == blines {
                    assert(alines.len() == blines.len());
                    assert(a@[i as int]@ == alines[i as int]);
                    assert(false);
                }
                lemma_take_one_more(blines, j as int);
                lemma_join_push(blines.take(j as int), blines[j as int]);
                assert(j < m);
                if i < n {
                    assert(va[0] != vb[0]);
                    assert(lcs_len(alines.skip(i + 1), blines.skip(j as int)) < lcs_len(
                        alines.skip(i as int),
                        blines.skip(j + 1),
                    ));
                    assert(!(lcs_len(va.skip(1), vb) >= lcs_len(va, vb.skip(1))));
                } else {
                    assert(va.len() == 0);
                }
                assert(spec_diff_lines(va, vb) == seq![(ChangeType::Add, vb[0])]
                    + spec_diff_lines(va, vb.skip(1)));
                assert(run_pairs(ops@) =~= run_pairs(old_ops).push(
                    (ChangeType::Add, blines[j as int]),
                ));
                assert(run_pairs(old_ops) + (seq![(ChangeType::Add, vb[0])]
                    + spec_diff_lines(alines.skip(i as int), blines.skip(j + 1)))
                    =~= run_pairs(ops@) + spec_diff_lines(
                    alines.skip(i as int),
                    blines.skip(j + 1),
                ));
            }
            j = j + 1;
        }
    }
    proof {
        assert(alines.take(n as int) =~= alines);
        assert(blines.take(m as int) =~= blines);
        assert(alines.skip(n as int) =~= Seq::<Seq<char>>::empty());
        assert(blines.skip(m as int) =~= Seq::<Seq<char>>::empty());
        assert(spec_diff_lines(alines.skip(n as int), blines.skip(m as int))
            =~= Seq::<(ChangeType, Seq<char>)>::empty());
        assert(run_pairs(ops@) + Seq::<(ChangeType, Seq<char>)>::empty() =~= run_pairs(
            ops@,
        ));
    }
    ops
}

/// Line-oriented longest-common-subsequence diff of two texts.
///
/// Total and deterministic: the result's runs are exactly `spec_diff` of
/// the two texts, and it reconstructs both sides exactly — its `Same` and
/// `Add` runs concatenate to `new`, its `Same` and `Remove` runs
/// concatenate to `old`.  Identical inputs give distance zero (no `Add`
/// or `Remove` run); differing inputs give a positive distance.  The
/// distance of a diff is its snippet count, `get_snippets_count`.
#[verifier::rlimit(100)]
pub fn diff(old: &str, new: &str) -> (r: Vec<ChangeElement>)
    requires
        old@.len() < usize::MAX,
        new@.len() < usize::MAX,
    ensures
        run_pairs(r@) == spec_diff(old@, new@),
        current_text(r@) == new@,
        previous_text(r@) == old@,
        forall|k: int| 0 <= k < r@.len() - 1 ==> (#[trigger] r@[k].type_) != r@[k + 1].type_,
        old@ == new@ ==> spec_snippet_count(r@) == 0,
        old@ != new@ ==> spec_snippet_count(r@) > 0,
        old@.len() == 0 && new@.len() == 0 ==> r@.len() == 0,
        old@.len() == 0 && new@.len() > 0 ==> r@.len() == 1 && r@[0].type_ is Add
            && r@[0].content@ == new@,
        new@.len() == 0 && old@.len() > 0 ==> r@.len() == 1 && r@[0].type_ is Remove
            && r@[0].content@ == old@,
{
    if old.unicode_len() == 0 || new.unicode_len() == 0 {
        let mut r: Vec<ChangeElement> = Vec::new();
        if old.unicode_len() == 0 && new.unicode_len() > 0 {
            r.push(ChangeElement { type_: ChangeType::Add, content: new.to_owned() });
        } else if new.unicode_len() == 0 && old.unicode_len() > 0 {
            r.push(ChangeElement { type_: ChangeType::Remove, content: old.to_owned() });
        }
        proof {
            if old@.len() == 0 {
                assert(old@ =~= Seq::<char>::empty());
            }
            if new@.len() == 0 {
                assert(new@ =~= Seq::<char>::empty());
            }
            assert(spec_split_lines(Seq::<char>::empty()) =~= Seq::<Seq<char>>::empty());
            if r@.len() == 0 {
                assert(current_text(r@) == Seq::<char>::empty());
                assert(previous_text(r@) == Seq::<char>::empty());
                assert(spec_diff_lines(
                    Seq::<Seq<char>>::empty(),
                    Seq::<Seq<char>>::empty(),
                ) == Seq::<(ChangeType, Seq<char>)>::empty());
                assert(run_pairs(r@) =~= spec_diff(old@, new@));
            } else {
                assert(r@.drop_last() =~= Seq::<ChangeElement>::empty());
                assert(r@.last() == r@[0]);
                assert(current_text(r@.drop_last()) == Seq::<char>::empty());
                assert(previous_text(r@.drop_last()) == Seq::<char>::empty());
                assert(current_text(r@) == current_text(r@.drop_last()) + (
                if r@.last().type_ is Remove {
                    Seq::<char>::empty()
                } else {
                    r@.last().content@
                }));
                assert(previous_text(r@) == previous_text(r@.drop_last()) + (
                if r@.last().type_ is Add {
                    Seq::<char>::empty()
                } else {
                    r@.last().content@
                }));
                assert(Seq::<char>::empty() + r@[0].content@ =~= r@[0].content@);
                assert(Seq::<char>::empty() + Seq::<char>::empty() =~= Seq::<char>::empty());
                assert(spec_snippet_count(r@) == spec_snippet_count(r@.drop_last()) + 1);
                if old@.len() == 0 {
                    let bl = spec_split_lines(new@);
                    lemma_split_lines_join(new@);
                    assert(bl.len() > 0);
                    lemma_diff_lines_all_add(bl);
                    let ps = bl.map_values(|l: Seq<char>| (ChangeType::Add, l));
                    assert(ps.len() == bl.len());
                    assert(ps[0] == (ChangeType::Add, bl[0]));
                    assert(spec_merge(ps) == merge_acc(ps.skip(1), ps[0]));
                    assert(forall|k: int|
                        0 <= k < ps.skip(1).len() ==> (#[trigger] ps.skip(1)[k]).0
                            == ps[0].0);
                    lemma_merge_uniform(ps.skip(1), ps[0]);
                    assert(ps.skip(1).map_values(|p: (ChangeType, Seq<char>)| p.1)
                        =~= bl.skip(1));
                    assert(join_texts(bl) == bl[0] + join_texts(bl.skip(1)));
                    assert(spec_merge(ps) =~= seq![(ChangeType::Add, new@)]);
                    assert(run_pairs(r@) =~= seq![(ChangeType::Add, new@)]);
                    assert(run_pairs(r@) == spec_diff(old@, new@));
                } else {
                    let al = spec_split_lines(old@);
                    lemma_split_lines_join(old@);
                    assert(al.len() > 0);
                    lemma_diff_lines_all_remove(al);
                    let ps = al.map_values(|l: Seq<char>| (ChangeType::Remove, l));
                    assert(ps.len() == al.len());
                    assert(ps[0] == (ChangeType::Remove, al[0]));
                    assert(spec_merge(ps) == merge_acc(ps.skip(1), ps[0]));
                    assert(forall|k: int|
                        0 <= k < ps.skip(1).len() ==> (#[trigger] ps.skip(1)[k]).0
                            == ps[0].0);
                    lemma_merge_uniform(ps.skip(1), ps[0]);
                    assert(ps.skip(1).map_values(|p: (ChangeType, Seq<char>)| p.1)
                        =~= al.skip(1));
                    assert(join_texts(al) == al[0] + join_texts(al.skip(1)));
                    assert(spec_merge(ps) =~= seq![(ChangeType::Remove, old@)]);
                    assert(run_pairs(r@) =~= seq![(ChangeType::Remove, old@)]);
                    assert(run_pairs(r@) == spec_diff(old@, new@));
                }
            }
        }
        return r;
    }
    let a = split_lines(old);
    let b = split_lines(new);
    proof {
        lemma_split_lines_len(old@);
        lemma_split_lines_len(new@);
        lemma_split_lines_join(old@);
        lemma_split_lines_join(new@);
    }
    let t = build_table(&a, &b);
    let ops = diff_lines(&a, &b, &t);
    let r = merge_runs(ops);
    proof {
        assert(run_pairs(r@) == spec_diff(old@, new@));
        lemma_count_zero_iff_all_same(r@);
        if old@ == new@ {
        } else {
            if spec_snippet_count(r@) == 0 {
                lemma_all_same_texts_equal(r@);
                assert(false);
            }
        }

    }
    r
}

/// A diff together with its distance: the count of its `Add` and `Remove`
/// runs.  Distance zero means the two texts were identical.
pub struct Changeset {
    pub diffs: Vec<ChangeElement>,
    pub distance: usize,
}

impl Changeset {
    /// The distance recorded beside the runs is their snippet count.
    pub open spec fn wf(self) -> bool {
        self.distance == spec_snippet_count(self.diffs@)
    }

    /// Diffs two texts and records the distance of the result.
    pub fn new(old: &str, new: &str) -> (r: Changeset)
        requires
            old@.len() < usize::MAX,
            new@.len() < usize::MAX,
        ensures
            r.wf(),
            run_pairs(r.diffs@) == spec_diff(old@, new@),
            current_text(r.diffs@) == new@,
            previous_text(r.diffs@) == old@,
            old@ == new@ ==> r.distance == 0,
            old@ != new@ ==> r.distance > 0,
    {
        let diffs = diff(old, new);
        let distance = crate::history::get_snippets_count(&diffs);
        Changeset { diffs, distance }
    }
}

} // verus!
