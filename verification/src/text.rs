use vstd::prelude::*;

verus! {

broadcast use vstd::string::group_string_axioms;

/// Appends one character to a `String`.
///
/// Calls `String::push`, which appends the given char to the end of the string;
/// the contract says exactly that of the character sequence.
#[verifier::external_body]
fn push_char(s: &mut String, c: char)
    ensures
        final(s)@ == old(s)@.push(c),
{
    s.push(c);
}

/// The characters of `s`, in order.
pub fn chars_of(s: &str) -> (v: Vec<char>)
    ensures
        v@ == s@,
{
    let mut v: Vec<char> = Vec::new();
    for c in it: s.chars()
        invariant
            v@ == it.seq().take(it.index() as int),
    {
        v.push(c);
    }
    v
}

/// A `String` holding exactly the characters of `v`.
pub fn string_of(v: &[char]) -> (s: String)
    ensures
        s@ == v@,
{
    let mut s = String::new();
    let mut i: usize = 0;
    while i < v.len()
        invariant
            i <= v.len(),
            s@ == v@.take(i as int),
        decreases v.len() - i,
    {
        push_char(&mut s, v[i]);
        proof {
            assert(v@.take(i + 1) == v@.take(i as int).push(v@[i as int]));
        }
        i += 1;
    }
    proof {
        assert(v@.take(v.len() as int) == v@);
    }
    s
}


/// Whether `c` is a white-space character, as `char::is_whitespace` decides it
/// (the characters with the Unicode `White_Space` property).
pub open spec fn is_ws(c: char) -> bool {
    let u = c as u32;
    ||| 0x09 <= u <= 0x0D
    ||| u == 0x20
    ||| u == 0x85
    ||| u == 0xA0
    ||| u == 0x1680
    ||| 0x2000 <= u <= 0x200A
    ||| u == 0x2028
    ||| u == 0x2029
    ||| u == 0x202F
    ||| u == 0x205F
    ||| u == 0x3000
}

pub fn is_whitespace(c: char) -> (b: bool)
    ensures
        b == is_ws(c),
{
    let u = c as u32;
    (0x09 <= u && u <= 0x0D) || u == 0x20 || u == 0x85 || u == 0xA0 || u == 0x1680 || (0x2000
        <= u && u <= 0x200A) || u == 0x2028 || u == 0x2029 || u == 0x202F || u == 0x205F || u
        == 0x3000
}

/// `s` with its leading white space removed.
pub open spec fn trim_start(s: Seq<char>) -> Seq<char>
    decreases s.len(),
{
    if s.len() > 0 && is_ws(s[0]) {
        trim_start(s.drop_first())
    } else {
        s
    }
}

/// `s` with its trailing white space removed.
pub open spec fn trim_end(s: Seq<char>) -> Seq<char>
    decreases s.len(),
{
    if s.len() > 0 && is_ws(s.last()) {
        trim_end(s.drop_last())
    } else {
        s
    }
}

/// Whether `p` is a prefix of `s`.
pub open spec fn starts_with(s: Seq<char>, p: Seq<char>) -> bool {
    p.len() <= s.len() && s.take(p.len() as int) == p
}

/// Whether `p` occurs in `s` as a contiguous piece.
pub open spec fn contains_piece(s: Seq<char>, p: Seq<char>) -> bool {
    exists|i: int| 0 <= i <= s.len() - p.len() && #[trigger] s.subrange(i, i + p.len()) == p
}

/// Whether `s` ends with the character `c`.
pub open spec fn ends_with_char(s: Seq<char>, c: char) -> bool {
    s.len() > 0 && s.last() == c
}

/// Removes one carriage return at the end of a line, as `str::lines` does for a
/// line that was ended by `"\r\n"`.
pub open spec fn strip_cr(t: Seq<char>) -> Seq<char> {
    if ends_with_char(t, '\r') {
        t.drop_last()
    } else {
        t
    }
}

/// The lines of `s` after the partial line `cur`, split as `str::lines` splits:
/// at each `'\n'`, dropping a `'\r'` just before it; a final line needs no line
/// ending, and an empty final piece is no line.
pub open spec fn lines_after(s: Seq<char>, cur: Seq<char>) -> Seq<Seq<char>>
    decreases s.len(),
{
    if s.len() == 0 {
        if cur.len() == 0 {
            seq![]
        } else {
            seq![cur]
        }
    } else if s[0] == '\n' {
        seq![strip_cr(cur)] + lines_after(s.drop_first(), seq![])
    } else {
        lines_after(s.drop_first(), cur.push(s[0]))
    }
}

/// The lines of `s`, as `str::lines` yields them.
pub open spec fn lines_of(s: Seq<char>) -> Seq<Seq<char>> {
    lines_after(s, seq![])
}

/// The character sequences held by a list of lines.
pub open spec fn views(v: Seq<Vec<char>>) -> Seq<Seq<char>> {
    v.map_values(|l: Vec<char>| l@)
}

/// The lines of `s`, as `str::lines` yields them.
pub fn split_lines(s: &Vec<char>) -> (r: Vec<Vec<char>>)
    ensures
        views(r@) == lines_of(s@),
{
    let mut out: Vec<Vec<char>> = Vec::new();
    let mut cur: Vec<char> = Vec::new();
    let mut i: usize = 0;
    proof {
        assert(s@.skip(0) =~= s@);
        assert(views(out@) + lines_of(s@) =~= lines_of(s@));
    }
    while i < s.len()
        invariant
            i <= s.len(),
            views(out@) + lines_after(s@.skip(i as int), cur@) == lines_of(s@),
        decreases s.len() - i,
    {
        let c = s[i];
        let ghost cur_before = cur@;
        let ghost out_before = views(out@);
        proof {
            assert(s@.skip(i as int).drop_first() =~= s@.skip(i + 1));
            assert(s@.skip(i as int)[0] == c);
        }
        if c == '\n' {
            if cur.len() > 0 && cur[cur.len() - 1] == '\r' {
                cur.pop();
            }
            assert(cur@ == strip_cr(cur_before));
            out.push(cur);
            cur = Vec::new();
            proof {
                assert(views(out@) =~= out_before.push(strip_cr(cur_before)));
                assert(out_before.push(strip_cr(cur_before)) + lines_after(s@.skip(i + 1), seq![])
                    =~= out_before + (seq![strip_cr(cur_before)] + lines_after(
                    s@.skip(i + 1),
                    seq![],
                )));
                assert(cur@ =~= Seq::<char>::empty());
            }
        } else {
            cur.push(c);
        }
        i += 1;
    }
    proof {
        assert(s@.skip(s.len() as int) =~= Seq::<char>::empty());
    }
    if cur.len() > 0 {
        let ghost out_before = views(out@);
        let ghost last = cur@;
        out.push(cur);
        assert(views(out@) =~= out_before + seq![last]);
    } else {
        assert(views(out@) + Seq::<Seq<char>>::empty() =~= views(out@));
    }
    out
}

/// The lines `ls` joined with `'\n'` between neighbours, as `[String]::join("\n")` does.
pub open spec fn join_lines(ls: Seq<Seq<char>>) -> Seq<char>
    decreases ls.len(),
{
    if ls.len() == 0 {
        seq![]
    } else if ls.len() == 1 {
        ls[0]
    } else {
        join_lines(ls.drop_last()) + seq!['\n'] + ls.last()
    }
}

/// The lines `ls` joined with `'\n'` between neighbours.
pub fn join_with_newlines(ls: &Vec<Vec<char>>) -> (r: Vec<char>)
    ensures
        r@ == join_lines(views(ls@)),
{
    let mut out: Vec<char> = Vec::new();
    let mut i: usize = 0;
    while i < ls.len()
        invariant
            i <= ls.len(),
            out@ == join_lines(views(ls@).take(i as int)),
        decreases ls.len() - i,
    {
        let ghost before = out@;
        if i > 0 {
            out.push('\n');
        }
        let mut j: usize = 0;
        let ghost mid = out@;
        while j < ls[i].len()
            invariant
                i < ls.len(),
                j <= ls[i as int]@.len(),
                out@ == mid + ls[i as int]@.take(j as int),
            decreases ls[i as int]@.len() - j,
        {
            out.push(ls[i][j]);
            proof {
                assert(ls[i as int]@.take(j + 1) =~= ls[i as int]@.take(j as int).push(
                    ls[i as int]@[j as int],
                ));
            }
            j += 1;
        }
        proof {
            assert(ls[i as int]@.take(j as int) =~= ls[i as int]@);
            let t = views(ls@).take(i + 1);
            assert(t.drop_last() =~= views(ls@).take(i as int));
            assert(t.last() == ls[i as int]@);
            if i == 0 {
                assert(mid =~= Seq::<char>::empty());
                assert(out@ =~= t[0]);
            } else {
                assert(out@ =~= before + seq!['\n'] + ls[i as int]@);
            }
        }
        i += 1;
    }
    proof {
        assert(views(ls@).take(ls.len() as int) =~= views(ls@));
    }
    out
}

/// The number of newlines that a run of `k` consecutive newlines keeps once
/// every `"\n\n\n\n"` has been replaced by `"\n\n"` until none is left: a
/// run shorter than four stays, a longer one ends as two or three newlines,
/// by its parity.
pub open spec fn collapsed_len(k: nat) -> nat {
    if k < 4 {
        k
    } else if k % 2 == 0 {
        2
    } else {
        3
    }
}

/// `k` newlines.
pub open spec fn newlines(k: nat) -> Seq<char> {
    Seq::new(k, |i: int| '\n')
}

/// `s`, following a run of `run` newlines, with every maximal run of newlines
/// shortened to its `collapsed_len`.
pub open spec fn collapse_after(s: Seq<char>, run: nat) -> Seq<char>
    decreases s.len(),
{
    if s.len() == 0 {
        newlines(collapsed_len(run))
    } else if s[0] == '\n' {
        collapse_after(s.drop_first(), run + 1)
    } else {
        newlines(collapsed_len(run)) + seq![s[0]] + collapse_after(s.drop_first(), 0)
    }
}

/// `s` with every maximal run of newlines shortened to its `collapsed_len`.
pub open spec fn collapse_newlines(s: Seq<char>) -> Seq<char> {
    collapse_after(s, 0)
}

fn collapsed_count(k: usize) -> (r: usize)
    ensures
        r == collapsed_len(k as nat),
{
    if k < 4 {
        k
    } else if k % 2 == 0 {
        2
    } else {
        3
    }
}

fn push_newlines(out: &mut Vec<char>, k: usize)
    ensures
        final(out)@ == old(out)@ + newlines(k as nat),
{
    let mut n: usize = 0;
    while n < k
        invariant
            n <= k,
            out@ == old(out)@ + newlines(n as nat),
        decreases k - n,
    {
        out.push('\n');
        n += 1;
        proof {
            assert(out@ =~= old(out)@ + newlines(n as nat));
        }
    }
}

/// `s` with every maximal run of newlines shortened to its `collapsed_len`.
pub fn collapse_newline_runs(s: &Vec<char>) -> (r: Vec<char>)
    ensures
        r@ == collapse_newlines(s@),
{
    let mut out: Vec<char> = Vec::new();
    let mut run: usize = 0;
    let mut i: usize = 0;
    proof {
        assert(s@.skip(0) =~= s@);
        assert(out@ + collapse_newlines(s@) =~= collapse_newlines(s@));
    }
    while i < s.len()
        invariant
            i <= s.len(),
            run <= i,
            out@ + collapse_after(s@.skip(i as int), run as nat) == collapse_newlines(s@),
        decreases s.len() - i,
    {
        let c = s[i];
        let ghost before = out@;
        let ghost run_before = run as nat;
        proof {
            assert(s@.skip(i as int).drop_first() =~= s@.skip(i + 1));
            assert(s@.skip(i as int)[0] == c);
        }
        if c == '\n' {
            run += 1;
        } else {
            push_newlines(&mut out, collapsed_count(run));
            out.push(c);
            run = 0;
            proof {
                let rest = collapse_after(s@.skip(i + 1), 0);
                assert(out@ + rest =~= before + (newlines(collapsed_len(run_before)) + seq![c]
                    + rest));
            }
        }
        i += 1;
    }
    proof {
        assert(s@.skip(s.len() as int) =~= Seq::<char>::empty());
    }
    push_newlines(&mut out, collapsed_count(run));
    out
}

/// The number of leading white-space characters of `s`.
pub fn leading_ws_len(s: &[char]) -> (k: usize)
    ensures
        k <= s@.len(),
        s@.skip(k as int) == trim_start(s@),
{
    let mut k: usize = 0;
    proof {
        assert(s@.skip(0) =~= s@);
    }
    while k < s.len() && is_whitespace(s[k])
        invariant
            k <= s@.len(),
            trim_start(s@.skip(k as int)) == trim_start(s@),
        decreases s@.len() - k,
    {
        proof {
            assert(s@.skip(k as int).drop_first() =~= s@.skip(k + 1));
        }
        k += 1;
    }
    k
}

/// The number of trailing white-space characters of `s`.
pub fn trailing_ws_len(s: &[char]) -> (k: usize)
    ensures
        k <= s@.len(),
        s@.take(s@.len() - k) == trim_end(s@),
{
    let mut k: usize = 0;
    proof {
        assert(s@.take(s@.len() as int) =~= s@);
    }
    while k < s.len() && is_whitespace(s[s.len() - 1 - k])
        invariant
            k <= s@.len(),
            trim_end(s@.take(s@.len() - k)) == trim_end(s@),
        decreases s@.len() - k,
    {
        proof {
            let t = s@.take(s@.len() - k);
            assert(t.last() == s@[s@.len() - 1 - k]);
            assert(t.drop_last() =~= s@.take(s@.len() - (k + 1)));
        }
        k += 1;
    }
    proof {
        let t = s@.take(s@.len() - k);
        if t.len() > 0 {
            assert(t.last() == s@[s@.len() - 1 - k]);
        }
    }
    k
}

/// Whether `s`, from position `from` on, starts with `p`.
pub fn has_prefix_at(s: &[char], from: usize, p: &[char]) -> (b: bool)
    requires
        from <= s@.len(),
    ensures
        b == starts_with(s@.skip(from as int), p@),
{
    if p.len() > s.len() - from {
        return false;
    }
    let mut j: usize = 0;
    while j < p.len()
        invariant
            from <= s@.len(),
            p@.len() <= s@.len() - from,
            j <= p@.len(),
            forall|t: int| 0 <= t < j ==> s@[from + t] == p@[t],
        decreases p@.len() - j,
    {
        assert(from + j < s.len());
        if s[from + j] != p[j] {
            proof {
                assert(s@.skip(from as int).take(p@.len() as int)[j as int] != p@[j as int]);
            }
            return false;
        }
        j += 1;
    }
    proof {
        assert(s@.skip(from as int).take(p@.len() as int) =~= p@);
    }
    true
}

/// Whether `p` occurs in `s`.
pub fn has_piece(s: &[char], p: &[char]) -> (b: bool)
    ensures
        b == contains_piece(s@, p@),
{
    if p.len() > s.len() {
        return false;
    }
    let last = s.len() - p.len();
    let mut i: usize = 0;
    loop
        invariant
            last == s@.len() - p@.len(),
            i <= last,
            forall|t: int| 0 <= t < i ==> #[trigger] s@.subrange(t, t + p@.len()) != p@,
        decreases last - i,
    {
        let found = has_prefix_at(s, i, p);
        proof {
            assert(s@.skip(i as int).take(p@.len() as int) =~= s@.subrange(
                i as int,
                i + p@.len(),
            ));
        }
        if found {
            return true;
        }
        if i == last {
            return false;
        }
        i += 1;
    }
}

/// No piece of `collapse_after(s, run)` is four newlines.
proof fn lemma_collapse_after_no_quad(s: Seq<char>, run: nat)
    ensures
        !contains_piece(collapse_after(s, run), newlines(4)),
    decreases s.len(),
{
    let t = collapse_after(s, run);
    let q = newlines(4);
    if s.len() == 0 {
        if contains_piece(t, q) {
            let i = choose|i: int| 0 <= i <= t.len() - q.len() && #[trigger] t.subrange(i, i + q.len()) == q;
            assert(t.len() <= 3);
        }
    } else if s[0] == '\n' {
        lemma_collapse_after_no_quad(s.drop_first(), run + 1);
    } else {
        let m = collapsed_len(run);
        let head = newlines(m);
        let rest = collapse_after(s.drop_first(), 0);
        lemma_collapse_after_no_quad(s.drop_first(), 0);
        assert(t == head + seq![s[0]] + rest);
        if contains_piece(t, q) {
            let i = choose|i: int| 0 <= i <= t.len() - q.len() && #[trigger] t.subrange(i, i + q.len()) == q;
            if i + 4 <= m {
                assert(m <= 3);
            } else if i <= m {
                assert(t.subrange(i, i + 4)[m - i] == t[m as int]);
                assert(t[m as int] == s[0]);
                assert(q[m - i] == '\n');
            } else {
                let j = i - m - 1;
                assert(rest.subrange(j, j + 4) =~= t.subrange(i, i + 4));
                assert(0 <= j <= rest.len() - q.len());
                assert(rest.subrange(j, j + q.len()) == q);
            }
        }
    }
}

/// Collapsing leaves no run of four newlines: no piece of the result is
/// `"\n\n\n\n"`.
pub proof fn lemma_collapse_has_no_four_newlines(s: Seq<char>)
    ensures
        !contains_piece(collapse_newlines(s), newlines(4)),
{
    lemma_collapse_after_no_quad(s, 0);
}

/// Collapsing keeps a final newline.
pub proof fn lemma_collapse_after_keeps_final_newline(s: Seq<char>, run: nat)
    requires
        ends_with_char(s, '\n'),
    ensures
        ends_with_char(collapse_after(s, run), '\n'),
    decreases s.len(),
{
    if s[0] == '\n' {
        if s.len() == 1 {
            assert(s.drop_first().len() == 0);
            assert(collapsed_len(run + 1) >= 1);
        } else {
            assert(s.drop_first().last() == s.last());
            lemma_collapse_after_keeps_final_newline(s.drop_first(), run + 1);
        }
    } else {
        assert(s.len() >= 2);
        assert(s.drop_first().last() == s.last());
        lemma_collapse_after_keeps_final_newline(s.drop_first(), 0);
        let m = collapsed_len(run);
        let rest = collapse_after(s.drop_first(), 0);
        let t = newlines(m) + seq![s[0]] + rest;
        assert(t.last() == rest.last());
    }
}

/// Collapsing keeps a first character that is not a newline.
pub proof fn lemma_collapse_keeps_first(s: Seq<char>)
    requires
        s.len() > 0,
        s[0] != '\n',
    ensures
        collapse_newlines(s).len() > 0,
        collapse_newlines(s)[0] == s[0],
{
    assert(collapsed_len(0) == 0);
    assert(newlines(0) =~= Seq::<char>::empty());
    let rest = collapse_after(s.drop_first(), 0);
    assert(collapse_newlines(s) == newlines(0) + seq![s[0]] + rest);
    assert((newlines(0) + seq![s[0]] + rest)[0] == s[0]);
}

} // verus!
