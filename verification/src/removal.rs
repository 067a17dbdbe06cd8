use vstd::prelude::*;

use crate::text::{
    chars_of, collapse_after, collapse_newline_runs, collapse_newlines, contains_piece,
    ends_with_char, has_prefix_at, join_lines, join_with_newlines, leading_ws_len,
    lemma_collapse_after_keeps_final_newline, lemma_collapse_has_no_four_newlines,
    lemma_collapse_keeps_first, lines_after, lines_of, newlines, split_lines, starts_with,
    strip_cr, string_of, trailing_ws_len, trim_end, trim_start, views,
};

verus! {

/// Whether a line, with its white space trimmed, is an outer attribute and
/// nothing else: it starts with `#[` and ends with `]`. An inner attribute
/// (`#![`) belongs to the enclosing module, not to the item below it, and a
/// line such as `#[inline] fn a() {}` holds an item of its own.
pub open spec fn is_attr_line(line: Seq<char>) -> bool {
    starts_with(trim_start(line), seq!['#', '[']) && ends_with_char(trim_end(line), ']')
}

/// Whether a line holds nothing but white space.
pub open spec fn is_blank_line(line: Seq<char>) -> bool {
    trim_start(line).len() == 0
}

/// Walking upwards from the line at index `i` (counting from 0), over attribute
/// lines and blank lines, the 1-based number of the highest attribute line met;
/// `cur` when none is met before a line of another kind or the top of the file.
pub open spec fn attr_scan(lines: Seq<Seq<char>>, i: int, cur: int) -> int
    decreases i + 1,
{
    if i < 0 {
        cur
    } else if is_attr_line(lines[i]) {
        attr_scan(lines, i - 1, i + 1)
    } else if is_blank_line(lines[i]) {
        attr_scan(lines, i - 1, cur)
    } else {
        cur
    }
}

/// The 1-based number of the first line of the attribute block above the line
/// at index `idx`, or `idx + 1` (that line's own number) when there is none.
pub open spec fn first_attr_line(lines: Seq<Seq<char>>, idx: int) -> int {
    attr_scan(lines, idx - 1, idx + 1)
}

/// The end line of the first range that starts at line `n`, if any.
pub open spec fn range_ending(ranges: Seq<(usize, usize)>, n: int) -> Option<usize>
    decreases ranges.len(),
{
    if ranges.len() == 0 {
        None
    } else if ranges[0].0 == n {
        Some(ranges[0].1)
    } else {
        range_ending(ranges.drop_first(), n)
    }
}

/// The kept lines `kept`, with their line numbers `nums`, after dropping from
/// the end every kept line numbered `f` or later.
pub open spec fn cut_back(kept: Seq<Seq<char>>, nums: Seq<int>, f: int) -> (
    Seq<Seq<char>>,
    Seq<int>,
)
    decreases nums.len(),
{
    if nums.len() > 0 && kept.len() > 0 && nums.last() >= f {
        cut_back(kept.drop_last(), nums.drop_last(), f)
    } else {
        (kept, nums)
    }
}

/// The state of the line scan: the lines kept so far, their line numbers, and
/// the line up to which lines are being skipped.
pub type ScanState = (Seq<Seq<char>>, Seq<int>, Option<usize>);

/// One step of the line scan, at the line with index `idx` (number `idx + 1`).
/// A line inside the skipped stretch is dropped. A line at which a range
/// starts is dropped, the kept lines numbered from its `first_attr_line` on
/// (its attribute block) are dropped again, and skipping runs to the range's
/// end. Any other line is kept.
pub open spec fn scan_step(
    lines: Seq<Seq<char>>,
    ranges: Seq<(usize, usize)>,
    st: ScanState,
    idx: int,
) -> ScanState {
    let n = idx + 1;
    if st.2 is Some && n <= st.2->0 {
        st
    } else {
        match range_ending(ranges, n) {
            Some(end) => {
                let c = cut_back(st.0, st.1, first_attr_line(lines, idx));
                (c.0, c.1, Some(end))
            },
            None => (st.0.push(lines[idx]), st.1.push(n), None),
        }
    }
}

/// The scan state after the first `k` lines.
pub open spec fn scan_lines(lines: Seq<Seq<char>>, ranges: Seq<(usize, usize)>, k: nat) -> ScanState
    decreases k,
{
    if k == 0 {
        (seq![], seq![], None)
    } else {
        scan_step(lines, ranges, scan_lines(lines, ranges, (k - 1) as nat), k - 1)
    }
}

/// The lines that the scan keeps.
pub open spec fn kept_lines(lines: Seq<Seq<char>>, ranges: Seq<(usize, usize)>) -> Seq<Seq<char>> {
    scan_lines(lines, ranges, lines.len()).0
}

/// `ls` without its leading empty lines.
pub open spec fn drop_leading_empty(ls: Seq<Seq<char>>) -> Seq<Seq<char>>
    decreases ls.len(),
{
    if ls.len() > 0 && ls[0].len() == 0 {
        drop_leading_empty(ls.drop_first())
    } else {
        ls
    }
}

/// `joined` with a newline added when `content` ends with one and `joined`
/// does not.
pub open spec fn restore_final_newline(content: Seq<char>, joined: Seq<char>) -> Seq<char> {
    if ends_with_char(content, '\n') && !ends_with_char(joined, '\n') {
        joined.push('\n')
    } else {
        joined
    }
}

/// What removing the line ranges `ranges` from `content` gives: the kept
/// lines without leading empty lines, joined with newlines, the final newline
/// of `content` restored, and every run of four or more newlines shortened.
pub open spec fn removal_result(content: Seq<char>, ranges: Seq<(usize, usize)>) -> Seq<char> {
    collapse_newlines(
        restore_final_newline(
            content,
            join_lines(drop_leading_empty(kept_lines(lines_of(content), ranges))),
        ),
    )
}

fn copy_line(v: &Vec<char>) -> (r: Vec<char>)
    ensures
        r@ == v@,
{
    let mut r: Vec<char> = Vec::new();
    let mut i: usize = 0;
    while i < v.len()
        invariant
            i <= v.len(),
            r@ == v@.take(i as int),
        decreases v.len() - i,
    {
        r.push(v[i]);
        proof {
            assert(v@.take(i + 1) =~= v@.take(i as int).push(v@[i as int]));
        }
        i += 1;
    }
    proof {
        assert(v@.take(v.len() as int) =~= v@);
    }
    r
}

fn range_end_for(ranges: &[(usize, usize)], n: usize) -> (r: Option<usize>)
    ensures
        r == range_ending(ranges@, n as int),
{
    let mut j: usize = 0;
    proof {
        assert(ranges@.skip(0) =~= ranges@);
    }
    while j < ranges.len()
        invariant
            j <= ranges@.len(),
            range_ending(ranges@.skip(j as int), n as int) == range_ending(ranges@, n as int),
        decreases ranges@.len() - j,
    {
        proof {
            assert(ranges@.skip(j as int).drop_first() =~= ranges@.skip(j + 1));
            assert(ranges@.skip(j as int)[0] == ranges@[j as int]);
        }
        if ranges[j].0 == n {
            return Some(ranges[j].1);
        }
        j += 1;
    }
    None
}

fn opens_attribute(line: &Vec<char>) -> (r: (bool, bool))
    ensures
        r.0 == is_attr_line(line@),
        r.1 == is_blank_line(line@),
{
    let k = leading_ws_len(line.as_slice());
    let outer = vec!['#', '['];
    proof {
        assert(outer@ =~= seq!['#', '[']);
    }
    let a = has_prefix_at(line.as_slice(), k, outer.as_slice());
    let t = trailing_ws_len(line.as_slice());
    let closes = t < line.len() && line[line.len() - 1 - t] == ']';
    proof {
        let te = line@.take(line@.len() - t);
        if te.len() > 0 {
            assert(te.last() == line@[line@.len() - 1 - t]);
        }
    }
    (a && closes, k == line.len())
}

fn first_attr_line_of(lines: &Vec<Vec<char>>, idx: usize) -> (f: usize)
    requires
        idx < lines@.len(),
    ensures
        f == first_attr_line(views(lines@), idx as int),
        1 <= f <= idx + 1,
{
    let ghost ls = views(lines@);
    assert(idx < lines.len());
    let mut cur: usize = idx + 1;
    let mut i: usize = idx;
    loop
        invariant
            i <= idx < lines@.len(),
            ls == views(lines@),
            i + 1 <= cur <= idx + 1,
            attr_scan(ls, i - 1, cur as int) == first_attr_line(ls, idx as int),
        decreases i,
    {
        if i == 0 {
            return cur;
        }
        let (attr, blank) = opens_attribute(&lines[i - 1]);
        assert(ls[i - 1] == lines@[i - 1]@);
        if attr {
            cur = i;
        } else if !blank {
            return cur;
        }
        i -= 1;
    }
}

/// The line numbers held by a list.
pub open spec fn numbers(v: Seq<usize>) -> Seq<int> {
    v.map_values(|x: usize| x as int)
}

fn keep_lines(lines: &Vec<Vec<char>>, ranges: &[(usize, usize)]) -> (r: Vec<Vec<char>>)
    ensures
        views(r@) == kept_lines(views(lines@), ranges@),
{
    let ghost ls = views(lines@);
    let mut result: Vec<Vec<char>> = Vec::new();
    let mut result_nums: Vec<usize> = Vec::new();
    let mut skip_until: Option<usize> = None;
    let mut idx: usize = 0;
    proof {
        assert(views(result@) =~= Seq::<Seq<char>>::empty());
        assert(numbers(result_nums@) =~= Seq::<int>::empty());
    }
    while idx < lines.len()
        invariant
            idx <= lines@.len(),
            ls == views(lines@),
            (views(result@), numbers(result_nums@), skip_until) == scan_lines(
                ls,
                ranges@,
                idx as nat,
            ),
        decreases lines@.len() - idx,
    {
        let line_num = idx + 1;
        let mut skipping = false;
        if let Some(su) = skip_until {
            if line_num <= su {
                skipping = true;
            } else {
                skip_until = None;
            }
        }
        if !skipping {
            match range_end_for(ranges, line_num) {
                Some(end) => {
                    let first = first_attr_line_of(lines, idx);
                    let ghost target = cut_back(
                        views(result@),
                        numbers(result_nums@),
                        first as int,
                    );
                    while result_nums.len() > 0 && result.len() > 0 && result_nums[result_nums.len()
                        - 1] >= first
                        invariant
                            cut_back(views(result@), numbers(result_nums@), first as int) == target,
                        decreases result_nums@.len(),
                    {
                        let ghost k0 = views(result@);
                        let ghost n0 = numbers(result_nums@);
                        result.pop();
                        result_nums.pop();
                        proof {
                            assert(views(result@) =~= k0.drop_last());
                            assert(numbers(result_nums@) =~= n0.drop_last());
                        }
                    }
                    skip_until = Some(end);
                },
                None => {
                    let ghost before = views(result@);
                    let ghost before_nums = numbers(result_nums@);
                    result.push(copy_line(&lines[idx]));
                    result_nums.push(line_num);
                    proof {
                        assert(views(result@) =~= before.push(ls[idx as int]));
                        assert(numbers(result_nums@) =~= before_nums.push(line_num as int));
                    }
                },
            }
        }
        idx += 1;
    }
    result
}

/// `ls` without its leading empty lines.
fn drop_leading_empty_lines(ls: Vec<Vec<char>>) -> (r: Vec<Vec<char>>)
    ensures
        views(r@) == drop_leading_empty(views(ls@)),
{
    let mut ls = ls;
    let mut k: usize = 0;
    proof {
        assert(views(ls@).skip(0) =~= views(ls@));
    }
    while k < ls.len() && ls[k].len() == 0
        invariant
            k <= ls@.len(),
            drop_leading_empty(views(ls@).skip(k as int)) == drop_leading_empty(views(ls@)),
        decreases ls@.len() - k,
    {
        proof {
            assert(views(ls@).skip(k as int).drop_first() =~= views(ls@).skip(k + 1));
        }
        k += 1;
    }
    let ghost all = views(ls@);
    let tail = ls.split_off(k);
    proof {
        assert(views(tail@) =~= all.skip(k as int));
    }
    tail
}

/// Removes the given line ranges from `content`.
///
/// Each pair is a 1-based start line and end line. Lines are scanned in
/// order: at a line where some range starts (the first such range counts),
/// that line and the lines up to the range's end are dropped, and so are the
/// outer attribute lines just above it (with blank lines between them) that
/// were kept. Leading empty lines are dropped, the lines
/// are joined with `'\n'`, the final newline of `content` is kept, and runs
/// of four or more newlines are shortened.
pub fn apply_line_removals(content: &str, lines_to_remove: &[(usize, usize)]) -> (r: String)
    ensures
        r@ == removal_result(content@, lines_to_remove@),
{
    let text = chars_of(content);
    let lines = split_lines(&text);
    let kept = keep_lines(&lines, lines_to_remove);
    let trimmed = drop_leading_empty_lines(kept);
    let mut joined = join_with_newlines(&trimmed);
    if text.len() > 0 && text[text.len() - 1] == '\n' && !(joined.len() > 0 && joined[joined.len()
        - 1] == '\n') {
        joined.push('\n');
    }
    let collapsed = collapse_newline_runs(&joined);
    string_of(collapsed.as_slice())
}

/// The attribute scan lands on a line number between 1 and `cur`.
pub proof fn lemma_attr_scan_bounds(lines: Seq<Seq<char>>, i: int, cur: int)
    requires
        1 <= cur,
        i + 1 <= cur,
    ensures
        1 <= attr_scan(lines, i, cur) <= cur,
    decreases i + 1,
{
    if i >= 0 {
        if is_attr_line(lines[i]) {
            lemma_attr_scan_bounds(lines, i - 1, i + 1);
        } else if is_blank_line(lines[i]) {
            lemma_attr_scan_bounds(lines, i - 1, cur);
        }
    }
}

/// Whether `t` holds no newline.
pub open spec fn newline_free(t: Seq<char>) -> bool {
    forall|i: int| 0 <= i < t.len() ==> t[i] != '\n'
}

/// Whether every line of `ls` holds no newline.
pub open spec fn all_newline_free(ls: Seq<Seq<char>>) -> bool {
    forall|k: int| 0 <= k < ls.len() ==> newline_free(#[trigger] ls[k])
}

proof fn lemma_lines_after_newline_free(s: Seq<char>, cur: Seq<char>)
    requires
        newline_free(cur),
    ensures
        all_newline_free(lines_after(s, cur)),
    decreases s.len(),
{
    if s.len() == 0 {
    } else if s[0] == '\n' {
        lemma_lines_after_newline_free(s.drop_first(), seq![]);
        let rest = lines_after(s.drop_first(), seq![]);
        let all = seq![strip_cr(cur)] + rest;
        assert forall|k: int| 0 <= k < all.len() implies newline_free(#[trigger] all[k]) by {
            if k > 0 {
                assert(all[k] == rest[k - 1]);
            }
        }
    } else {
        lemma_lines_after_newline_free(s.drop_first(), cur.push(s[0]));
    }
}

/// Cutting back keeps a prefix of the kept lines and of their numbers.
proof fn lemma_cut_back_prefix(kept: Seq<Seq<char>>, nums: Seq<int>, f: int)
    ensures
        cut_back(kept, nums, f).0.len() <= kept.len(),
        cut_back(kept, nums, f).0 == kept.take(cut_back(kept, nums, f).0.len() as int),
        cut_back(kept, nums, f).1.len() <= nums.len(),
        cut_back(kept, nums, f).1 == nums.take(cut_back(kept, nums, f).1.len() as int),
    decreases nums.len(),
{
    if nums.len() > 0 && kept.len() > 0 && nums.last() >= f {
        lemma_cut_back_prefix(kept.drop_last(), nums.drop_last(), f);
        let c = cut_back(kept, nums, f);
        assert(kept.drop_last().take(c.0.len() as int) =~= kept.take(c.0.len() as int));
        assert(nums.drop_last().take(c.1.len() as int) =~= nums.take(c.1.len() as int));
    } else {
        assert(kept.take(kept.len() as int) =~= kept);
        assert(nums.take(nums.len() as int) =~= nums);
    }
}

proof fn lemma_scan_newline_free(lines: Seq<Seq<char>>, ranges: Seq<(usize, usize)>, k: nat)
    requires
        all_newline_free(lines),
        k <= lines.len(),
    ensures
        all_newline_free(scan_lines(lines, ranges, k).0),
    decreases k,
{
    if k > 0 {
        lemma_scan_newline_free(lines, ranges, (k - 1) as nat);
        let st = scan_lines(lines, ranges, (k - 1) as nat);
        let next = scan_lines(lines, ranges, k);
        assert(next == scan_step(lines, ranges, st, k - 1));
        let n = k as int;
        if st.2 is Some && n <= st.2->0 {
        } else {
            match range_ending(ranges, n) {
                Some(end) => {
                    let f = first_attr_line(lines, k - 1);
                    lemma_cut_back_prefix(st.0, st.1, f);
                    assert forall|j: int| 0 <= j < next.0.len() implies newline_free(
                        #[trigger] next.0[j],
                    ) by {
                        assert(next.0[j] == st.0[j]);
                    }
                },
                None => {
                    assert(next.0 == st.0.push(lines[k - 1]));
                    assert forall|j: int| 0 <= j < next.0.len() implies newline_free(
                        #[trigger] next.0[j],
                    ) by {
                        if j < st.0.len() {
                            assert(next.0[j] == st.0[j]);
                        } else {
                            assert(next.0[j] == lines[k - 1]);
                        }
                    }
                },
            }
        }
    }
}

proof fn lemma_drop_leading_empty(ls: Seq<Seq<char>>)
    requires
        all_newline_free(ls),
    ensures
        all_newline_free(drop_leading_empty(ls)),
        drop_leading_empty(ls).len() > 0 ==> drop_leading_empty(ls)[0].len() > 0,
    decreases ls.len(),
{
    if ls.len() > 0 && ls[0].len() == 0 {
        assert forall|k: int| 0 <= k < ls.drop_first().len() implies newline_free(
            #[trigger] ls.drop_first()[k],
        ) by {
            assert(ls.drop_first()[k] == ls[k + 1]);
        }
        lemma_drop_leading_empty(ls.drop_first());
    }
}

proof fn lemma_join_first(ls: Seq<Seq<char>>)
    requires
        ls.len() > 0,
        ls[0].len() > 0,
    ensures
        join_lines(ls).len() > 0,
        join_lines(ls)[0] == ls[0][0],
    decreases ls.len(),
{
    if ls.len() > 1 {
        let init = ls.drop_last();
        assert(init[0] == ls[0]);
        lemma_join_first(init);
        let t = join_lines(init) + seq!['\n'] + ls.last();
        assert(t[0] == join_lines(init)[0]);
    }
}

/// Removing lines never leaves more than three newlines in a row: no piece of
/// the result is `"\n\n\n\n"`.
pub proof fn law_no_four_newlines(content: Seq<char>, ranges: Seq<(usize, usize)>)
    ensures
        !contains_piece(removal_result(content, ranges), newlines(4)),
{
    lemma_collapse_has_no_four_newlines(
        restore_final_newline(
            content,
            join_lines(drop_leading_empty(kept_lines(lines_of(content), ranges))),
        ),
    );
}

/// When the content ends with a newline, so does the result.
pub proof fn law_final_newline_kept(content: Seq<char>, ranges: Seq<(usize, usize)>)
    requires
        ends_with_char(content, '\n'),
    ensures
        ends_with_char(removal_result(content, ranges), '\n'),
{
    let joined = join_lines(drop_leading_empty(kept_lines(lines_of(content), ranges)));
    lemma_collapse_after_keeps_final_newline(restore_final_newline(content, joined), 0);
}

/// The result never starts with a blank line: it starts with a newline only
/// when it is a single newline.
pub proof fn law_no_leading_blank_line(content: Seq<char>, ranges: Seq<(usize, usize)>)
    ensures
        removal_result(content, ranges).len() > 0 && removal_result(content, ranges)[0] == '\n'
            ==> removal_result(content, ranges) == seq!['\n'],
{
    let lines = lines_of(content);
    lemma_lines_after_newline_free(content, seq![]);
    lemma_scan_newline_free(lines, ranges, lines.len());
    let kept = kept_lines(lines, ranges);
    lemma_drop_leading_empty(kept);
    let ls = drop_leading_empty(kept);
    let joined = join_lines(ls);
    let restored = restore_final_newline(content, joined);
    if ls.len() == 0 {
        if restored.len() == 0 {
            assert(collapse_newlines(restored) =~= newlines(0));
        } else {
            assert(restored =~= seq!['\n']);
            assert(restored.drop_first().len() == 0);
            assert(collapse_after(restored, 0) == collapse_after(restored.drop_first(), 1));
            assert(collapse_newlines(restored) =~= seq!['\n']);
        }
    } else {
        lemma_join_first(ls);
        assert(ls[0][0] != '\n');
        assert(restored[0] == joined[0]);
        lemma_collapse_keeps_first(restored);
    }
}

/// Whether line `n` lies in the range `r` (from `r.0` to `r.1`, both included).
pub open spec fn in_range(r: (usize, usize), n: int) -> bool {
    r.0 <= n <= r.1
}

/// Whether line `n` lies in one of the ranges.
pub open spec fn in_some_range(ranges: Seq<(usize, usize)>, n: int) -> bool {
    exists|i: int| 0 <= i < ranges.len() && in_range(#[trigger] ranges[i], n)
}

/// The first `k` lines, without those whose number lies in one of the ranges.
pub open spec fn lines_outside(lines: Seq<Seq<char>>, ranges: Seq<(usize, usize)>, k: nat) -> Seq<
    Seq<char>,
>
    decreases k,
{
    if k == 0 {
        seq![]
    } else {
        let prev = lines_outside(lines, ranges, (k - 1) as nat);
        if in_some_range(ranges, k as int) {
            prev
        } else {
            prev.push(lines[k - 1])
        }
    }
}

/// Ranges as a parser reports separate items: each starts at line 1 or
/// later and ends no earlier than it starts, each ends before the next one
/// starts, and no attribute line stands just above the start of any (blank
/// lines aside), so that its start line is its own `first_attr_line`.
pub open spec fn well_separated(lines: Seq<Seq<char>>, ranges: Seq<(usize, usize)>) -> bool {
    &&& forall|i: int| 0 <= i < ranges.len() ==> 1 <= #[trigger] ranges[i].0 <= ranges[i].1
    &&& forall|i: int, j: int| 0 <= i < j < ranges.len() ==> ranges[i].1 < ranges[j].0
    &&& forall|i: int|
        0 <= i < ranges.len() ==> first_attr_line(lines, #[trigger] ranges[i].0 - 1)
            == ranges[i].0
}

/// The end of the range that holds line `k`, if one does.
pub open spec fn covering_end(ranges: Seq<(usize, usize)>, k: int) -> Option<usize> {
    if k >= 1 && in_some_range(ranges, k) {
        let i = choose|i: int| 0 <= i < ranges.len() && in_range(#[trigger] ranges[i], k);
        Some(ranges[i].1)
    } else {
        None
    }
}

proof fn lemma_lines_outside_len(lines: Seq<Seq<char>>, ranges: Seq<(usize, usize)>, k: nat)
    ensures
        lines_outside(lines, ranges, k).len() <= k,
    decreases k,
{
    if k > 0 {
        lemma_lines_outside_len(lines, ranges, (k - 1) as nat);
    }
}

proof fn lemma_range_ending_hit(ranges: Seq<(usize, usize)>, n: int, j: int)
    requires
        0 <= j < ranges.len(),
        ranges[j].0 == n,
        forall|i: int| 0 <= i < j ==> #[trigger] ranges[i].0 != n,
    ensures
        range_ending(ranges, n) == Some(ranges[j].1),
    decreases ranges.len(),
{
    if j > 0 {
        let rest = ranges.drop_first();
        assert forall|i: int| 0 <= i < j - 1 implies #[trigger] rest[i].0 != n by {
            assert(rest[i] == ranges[i + 1]);
        }
        lemma_range_ending_hit(rest, n, j - 1);
    }
}

proof fn lemma_range_ending_miss(ranges: Seq<(usize, usize)>, n: int)
    requires
        forall|i: int| 0 <= i < ranges.len() ==> #[trigger] ranges[i].0 != n,
    ensures
        range_ending(ranges, n) is None,
    decreases ranges.len(),
{
    if ranges.len() > 0 {
        let rest = ranges.drop_first();
        assert forall|i: int| 0 <= i < rest.len() implies #[trigger] rest[i].0 != n by {
            assert(rest[i] == ranges[i + 1]);
        }
        lemma_range_ending_miss(rest, n);
    }
}

proof fn lemma_scan_separated(lines: Seq<Seq<char>>, ranges: Seq<(usize, usize)>, k: nat)
    requires
        well_separated(lines, ranges),
        k <= lines.len(),
    ensures
        scan_lines(lines, ranges, k).0 == lines_outside(lines, ranges, k),
        scan_lines(lines, ranges, k).2 == covering_end(ranges, k as int),
        forall|j: int|
            0 <= j < scan_lines(lines, ranges, k).1.len() ==> #[trigger] scan_lines(
                lines,
                ranges,
                k,
            ).1[j] <= k,
    decreases k,
{
    if k > 0 {
        let k0 = (k - 1) as nat;
        lemma_scan_separated(lines, ranges, k0);
        lemma_lines_outside_len(lines, ranges, k0);
        let st = scan_lines(lines, ranges, k0);
        let n = k as int;
        assert(scan_lines(lines, ranges, k) == scan_step(lines, ranges, st, k0 as int));
        if st.1.len() > 0 {
            assert(st.1.last() == st.1[st.1.len() - 1]);
        }
        if st.2 is Some && n <= st.2->0 {
            let i = choose|i: int| 0 <= i < ranges.len() && in_range(#[trigger] ranges[i], k0 as int);
            assert(in_range(ranges[i], n));
            assert(in_some_range(ranges, n));
            let i2 = choose|i2: int| 0 <= i2 < ranges.len() && in_range(#[trigger] ranges[i2], n);
            if i < i2 {
                assert(ranges[i].1 < ranges[i2].0);
            } else if i2 < i {
                assert(ranges[i2].1 < ranges[i].0);
            }
        } else {
            if exists|j: int| 0 <= j < ranges.len() && #[trigger] ranges[j].0 == n {
                let j = choose|j: int| 0 <= j < ranges.len() && #[trigger] ranges[j].0 == n;
                assert forall|i: int| 0 <= i < j implies #[trigger] ranges[i].0 != n by {
                    assert(ranges[i].0 <= ranges[i].1);
                }
                lemma_range_ending_hit(ranges, n, j);
                assert(first_attr_line(lines, ranges[j].0 - 1) == ranges[j].0);
                assert(in_range(ranges[j], n));
                assert(in_some_range(ranges, n));
                let i2 = choose|i2: int| 0 <= i2 < ranges.len() && in_range(#[trigger] ranges[i2], n);
                if i2 < j {
                    assert(ranges[i2].1 < ranges[j].0);
                } else if j < i2 {
                    assert(ranges[j].1 < ranges[i2].0);
                }
            } else {
                lemma_range_ending_miss(ranges, n);
                if in_some_range(ranges, n) {
                    let i = choose|i: int| 0 <= i < ranges.len() && in_range(#[trigger] ranges[i], n);
                    assert(ranges[i].0 != n);
                    assert(in_range(ranges[i], k0 as int));
                    assert(in_some_range(ranges, k0 as int));
                    let i0 = choose|i0: int|
                        0 <= i0 < ranges.len() && in_range(#[trigger] ranges[i0], k0 as int);
                    if i < i0 {
                        assert(ranges[i].1 < ranges[i0].0);
                    } else if i0 < i {
                        assert(ranges[i0].1 < ranges[i].0);
                    }
                    assert(false);
                }
            }
        }
    }
}

/// For ranges as a parser reports separate items (see `well_separated`), a
/// line is kept exactly when its number lies in none of the ranges.
pub proof fn law_kept_lines_are_those_outside_ranges(
    lines: Seq<Seq<char>>,
    ranges: Seq<(usize, usize)>,
)
    requires
        well_separated(lines, ranges),
    ensures
        kept_lines(lines, ranges) == lines_outside(lines, ranges, lines.len()),
{
    lemma_scan_separated(lines, ranges, lines.len());
}

/// The line numbers `a + 1` to `b`.
pub open spec fn numbered(a: int, b: int) -> Seq<int> {
    Seq::new((b - a) as nat, |j: int| a + 1 + j)
}

/// The scan state after `k` lines when the only range is `(s, e)`.
pub open spec fn single_range_state(lines: Seq<Seq<char>>, s: int, e: int, k: int) -> ScanState {
    let f = first_attr_line(lines, s - 1);
    let m = if s <= e {
        e
    } else {
        s
    };
    if k < s {
        (lines.take(k), numbered(0, k), None)
    } else if k <= m {
        (lines.take(f - 1), numbered(0, f - 1), Some(e as usize))
    } else {
        (lines.take(f - 1) + lines.subrange(m, k), numbered(0, f - 1) + numbered(m, k), None)
    }
}

/// Cutting back all the first `k` lines, numbered 1 to `k`, at `f` keeps the
/// lines numbered below `f`.
proof fn lemma_cut_back_all(lines: Seq<Seq<char>>, k: int, f: int)
    requires
        0 <= k <= lines.len(),
        1 <= f <= k + 1,
    ensures
        cut_back(lines.take(k), numbered(0, k), f) == (lines.take(f - 1), numbered(0, f - 1)),
    decreases k,
{
    let nums = numbered(0, k);
    if k >= f {
        assert(nums.last() == k);
        assert(lines.take(k).drop_last() =~= lines.take(k - 1));
        assert(nums.drop_last() =~= numbered(0, k - 1));
        lemma_cut_back_all(lines, k - 1, f);
    } else {
        if k > 0 {
            assert(nums.last() == k);
        }
    }
}

proof fn lemma_single_range_scan(lines: Seq<Seq<char>>, s: usize, e: usize, k: nat)
    requires
        1 <= s <= lines.len(),
        k <= lines.len(),
    ensures
        scan_lines(lines, seq![(s, e)], k) == single_range_state(lines, s as int, e as int, k as int),
    decreases k,
{
    let ranges = seq![(s, e)];
    if k == 0 {
        assert(lines.take(0) =~= Seq::<Seq<char>>::empty());
        assert(numbered(0, 0) =~= Seq::<int>::empty());
    } else {
        let k0 = (k - 1) as nat;
        lemma_single_range_scan(lines, s, e, k0);
        let st = scan_lines(lines, ranges, k0);
        let n = k as int;
        assert(scan_lines(lines, ranges, k) == scan_step(lines, ranges, st, k0 as int));
        assert(ranges.drop_first().len() == 0);
        let f = first_attr_line(lines, s - 1);
        lemma_attr_scan_bounds(lines, s - 2, s as int);
        let m = if s <= e {
            e as int
        } else {
            s as int
        };
        if n < s {
            lemma_range_ending_miss(ranges, n);
            assert(lines.take(k0 as int).push(lines[k0 as int]) =~= lines.take(n));
            assert(numbered(0, k0 as int).push(n) =~= numbered(0, n));
        } else if n == s {
            assert(range_ending(ranges, n) == Some(e));
            lemma_cut_back_all(lines, k0 as int, f);
        } else if n <= m {
        } else {
            lemma_range_ending_miss(ranges, n);
            if n == m + 1 {
                assert(lines.subrange(m, m) =~= Seq::<Seq<char>>::empty());
                assert(lines.take(f - 1) + lines.subrange(m, m) =~= lines.take(f - 1));
                assert(numbered(m, m) =~= Seq::<int>::empty());
                assert(numbered(0, f - 1) + numbered(m, m) =~= numbered(0, f - 1));
            }
            assert((lines.take(f - 1) + lines.subrange(m, k0 as int)).push(lines[k0 as int])
                =~= lines.take(f - 1) + lines.subrange(m, n));
            assert((numbered(0, f - 1) + numbered(m, k0 as int)).push(n) =~= numbered(0, f - 1)
                + numbered(m, n));
        }
    }
}

/// With a single range `(s, e)` that starts within the file, the kept lines
/// are those above the attribute block that ends at line `s` (see
/// `first_attr_line`) and those after the range: line `s`, the lines up to
/// `e`, and the attribute lines just above `s` are all dropped.
pub proof fn law_single_range_removal(lines: Seq<Seq<char>>, s: usize, e: usize)
    requires
        1 <= s <= lines.len(),
    ensures
        ({
            let m = if s <= e {
                e as int
            } else {
                s as int
            };
            let tail = if m <= lines.len() {
                lines.skip(m)
            } else {
                seq![]
            };
            kept_lines(lines, seq![(s, e)]) == lines.take(first_attr_line(lines, s - 1) - 1)
                + tail
        }),
{
    lemma_single_range_scan(lines, s, e, lines.len());
    let f = first_attr_line(lines, s - 1);
    let m = if s <= e {
        e as int
    } else {
        s as int
    };
    if m < lines.len() {
        assert(lines.subrange(m, lines.len() as int) =~= lines.skip(m));
    } else if m == lines.len() {
        assert(lines.skip(m) =~= Seq::<Seq<char>>::empty());
        assert(lines.take(f - 1) + lines.skip(m) =~= lines.take(f - 1));
    } else {
        assert(lines.take(f - 1) + Seq::<Seq<char>>::empty() =~= lines.take(f - 1));
    }
}

} // verus!
