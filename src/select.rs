use vstd::prelude::*;

verus! {

/// How much of a source is kept: a count of lines or of bytes. A count
/// `n >= 0` keeps the first `n`; a count `n < 0` keeps all but the last `|n|`.
#[derive(Clone, Copy, Debug, PartialEq, Eq, Structural)]
pub enum SelectionMode {
    Lines(i32),
    Bytes(i32),
}

/// Number of units kept out of `total` for the signed count `n`.
pub open spec fn kept(total: int, n: int) -> int {
    if n >= 0 {
        if n < total { n } else { total }
    } else {
        if total + n > 0 { total + n } else { 0 }
    }
}

/// The first bytes of `input`, as many as `n` asks for.
pub fn select_bytes(input: &Vec<u8>, n: i32) -> (r: Vec<u8>)
    ensures
        r@.len() == kept(input@.len() as int, n as int),
        r@ == input@.take(kept(input@.len() as int, n as int)),
{
    let total = input.len();
    let keep: usize = if n >= 0 {
        if (n as usize) < total { n as usize } else { total }
    } else {
        let drop = (-(n as i64)) as u64;
        if (total as u64) > drop { total - drop as usize } else { 0 }
    };
    let mut r: Vec<u8> = Vec::with_capacity(keep);
    let mut i: usize = 0;
    while i < keep
        invariant
            keep <= input@.len(),
            i <= keep,
            r@ == input@.take(i as int),
        decreases keep - i,
    {
        r.push(input[i]);
        i = i + 1;
        assert(r@ =~= input@.take(i as int));
    }
    r
}

/// The line terminator.
pub const NEWLINE: u8 = 10;

/// Length of the first line of `s`: up to and including the first
/// terminator, or all of `s` when it holds none.
pub open spec fn line_len(s: Seq<u8>) -> nat
    decreases s.len(),
{
    if s.len() == 0 {
        0
    } else if s[0] == NEWLINE {
        1
    } else {
        1 + line_len(s.drop_first())
    }
}

/// The lines of `s`, each with its terminator where it has one.
pub open spec fn lines(s: Seq<u8>) -> Seq<Seq<u8>>
    decreases s.len(),
{
    if s.len() == 0 {
        seq![]
    } else {
        proof {
            proof_line_len_bounds(s);
        }
        seq![s.take(line_len(s) as int)] + lines(s.skip(line_len(s) as int))
    }
}

/// Number of lines in `s`.
pub open spec fn line_count(s: Seq<u8>) -> nat {
    lines(s).len()
}

/// Position just past the first `k` lines of `s` (all of `s` when it has
/// fewer lines).
pub open spec fn lines_end(s: Seq<u8>, k: nat) -> nat
    decreases s.len(),
{
    if k == 0 || s.len() == 0 {
        0
    } else {
        proof {
            proof_line_len_bounds(s);
        }
        line_len(s) + lines_end(s.skip(line_len(s) as int), (k - 1) as nat)
    }
}

/// A nonempty sequence has a first line of at least one byte, and no line
/// runs past the end.
pub proof fn proof_line_len_bounds(s: Seq<u8>)
    ensures
        line_len(s) <= s.len(),
        s.len() > 0 ==> line_len(s) >= 1,
    decreases s.len(),
{
    if s.len() > 0 && s[0] != NEWLINE {
        proof_line_len_bounds(s.drop_first());
    }
}

proof fn lemma_line_len_step(s: Seq<u8>, j: int)
    requires
        0 <= j < s.len(),
        s[j] != NEWLINE,
    ensures
        line_len(s.skip(j)) == 1 + line_len(s.skip(j + 1)),
{
    assert(s.skip(j).drop_first() =~= s.skip(j + 1));
}

proof fn lemma_line_len_at_newline(s: Seq<u8>, j: int)
    requires
        0 <= j < s.len(),
        s[j] == NEWLINE,
    ensures
        line_len(s.skip(j)) == 1,
{
}

proof fn lemma_lines_end_bound(s: Seq<u8>, k: nat)
    ensures
        lines_end(s, k) <= s.len(),
    decreases s.len(),
{
    if k > 0 && s.len() > 0 {
        proof_line_len_bounds(s);
        lemma_lines_end_bound(s.skip(line_len(s) as int), (k - 1) as nat);
    }
}

/// One more line ends one line further on.
proof fn lemma_lines_end_succ(s: Seq<u8>, k: nat)
    ensures
        lines_end(s, k + 1) == lines_end(s, k) + line_len(s.skip(lines_end(s, k) as int)),
    decreases s.len(),
{
    lemma_lines_end_bound(s, k);
    if s.len() == 0 {
        assert(s.skip(0) =~= s);
    } else if k == 0 {
        assert(s.skip(0) =~= s);
        proof_line_len_bounds(s);
        assert(lines_end(s.skip(line_len(s) as int), 0) == 0);
    } else {
        proof_line_len_bounds(s);
        let l = line_len(s) as int;
        let t = s.skip(l);
        let j = (k - 1) as nat;
        lemma_lines_end_succ(t, j);
        assert(lines_end(s, k + 1) == l + lines_end(t, k));
        assert(lines_end(s, k) == l + lines_end(t, j));
        assert(j + 1 == k);
        assert(t.skip(lines_end(t, j) as int) =~= s.skip(l + lines_end(t, j)));
    }
}

/// Once every line has been passed, asking for more lines ends at the same
/// place.
proof fn lemma_lines_end_full(s: Seq<u8>, d: nat, k: nat)
    requires
        d <= k,
        lines_end(s, d) == s.len(),
    ensures
        lines_end(s, k) == s.len(),
    decreases k - d,
{
    if d < k {
        lemma_lines_end_succ(s, d);
        lemma_lines_end_bound(s, d + 1);
        lemma_lines_end_full(s, d + 1, k);
    }
}

/// One more line is counted past each line.
proof fn lemma_line_count_step(s: Seq<u8>, p: int)
    requires
        0 <= p < s.len(),
    ensures
        line_len(s.skip(p)) >= 1,
        p + line_len(s.skip(p)) <= s.len(),
        line_count(s.skip(p)) == 1 + line_count(s.skip(p + line_len(s.skip(p)))),
{
    let t = s.skip(p);
    proof_line_len_bounds(t);
    assert(t.skip(line_len(t) as int) =~= s.skip(p + line_len(t)));
}

/// Position just past the line that starts at `start`.
fn next_line_end(input: &Vec<u8>, start: usize) -> (e: usize)
    requires
        start <= input@.len(),
    ensures
        e == start + line_len(input@.skip(start as int)),
        e <= input@.len(),
{
    let mut j: usize = start;
    while j < input.len() && input[j] != NEWLINE
        invariant
            start <= j <= input@.len(),
            line_len(input@.skip(start as int)) == (j - start) + line_len(input@.skip(j as int)),
        decreases input@.len() - j,
    {
        proof {
            lemma_line_len_step(input@, j as int);
        }
        j = j + 1;
    }
    if j < input.len() {
        proof {
            lemma_line_len_at_newline(input@, j as int);
        }
        j + 1
    } else {
        proof {
            assert(input@.skip(j as int).len() == 0);
        }
        j
    }
}

/// Number of lines in `input`.
pub fn count_lines(input: &Vec<u8>) -> (r: usize)
    ensures
        r == line_count(input@),
{
    let mut pos: usize = 0;
    let mut count: usize = 0;
    assert(input@.skip(0) =~= input@);
    while pos < input.len()
        invariant
            pos <= input@.len(),
            count <= pos,
            line_count(input@) == count + line_count(input@.skip(pos as int)),
        decreases input@.len() - pos,
    {
        proof {
            lemma_line_count_step(input@, pos as int);
        }
        pos = next_line_end(input, pos);
        count = count + 1;
    }
    assert(input@.skip(pos as int).len() == 0);
    count
}

/// Position just past the first `k` lines of `input`.
fn find_lines_end(input: &Vec<u8>, k: usize) -> (e: usize)
    ensures
        e == lines_end(input@, k as nat),
{
    let mut pos: usize = 0;
    let mut done: usize = 0;
    while done < k && pos < input.len()
        invariant
            done <= k,
            pos == lines_end(input@, done as nat),
            pos <= input@.len(),
            pos == input@.len() ==> lines_end(input@, k as nat) == pos,
        decreases k - done,
    {
        proof {
            lemma_lines_end_succ(input@, done as nat);
        }
        pos = next_line_end(input, pos);
        done = done + 1;
        proof {
            if pos == input@.len() {
                lemma_lines_end_full(input@, done as nat, k as nat);
            }
        }
    }
    pos
}

/// Every line of `s` taken together ends at the end of `s`.
proof fn lemma_lines_end_all(s: Seq<u8>)
    ensures
        lines_end(s, line_count(s)) == s.len(),
    decreases s.len(),
{
    if s.len() > 0 {
        proof_line_len_bounds(s);
        let l = line_len(s) as int;
        let t = s.skip(l);
        lemma_lines_end_all(t);
        assert(line_count(s) == 1 + line_count(t));
        assert(lines_end(s, line_count(s)) == l + lines_end(t, line_count(t)));
    }
}

/// Asking for at least as many lines as there are ends at the end of `s`.
proof fn lemma_lines_end_capped(s: Seq<u8>, k: nat)
    ensures
        k >= line_count(s) ==> lines_end(s, k) == s.len(),
        lines_end(s, k) == lines_end(s, if k < line_count(s) { k } else { line_count(s) }),
{
    lemma_lines_end_all(s);
    if k >= line_count(s) {
        lemma_lines_end_full(s, line_count(s), k);
    }
}

/// Cutting `s` after its first line leaves that first line as it was.
proof fn lemma_line_len_prefix(s: Seq<u8>, m: int)
    requires
        line_len(s) <= m <= s.len(),
    ensures
        line_len(s.take(m)) == line_len(s),
    decreases s.len(),
{
    if s.len() > 0 && s[0] != NEWLINE {
        proof_line_len_bounds(s);
        assert(s.take(m).drop_first() =~= s.drop_first().take(m - 1));
        lemma_line_len_prefix(s.drop_first(), m - 1);
    }
}

/// The first `k` lines of `s`, cut out, are again `k` lines, the same ones.
proof fn lemma_lines_of_prefix(s: Seq<u8>, k: nat)
    requires
        k <= line_count(s),
    ensures
        lines(s.take(lines_end(s, k) as int)) == lines(s).take(k as int),
    decreases s.len(),
{
    if k == 0 || s.len() == 0 {
        assert(s.take(0).len() == 0);
        assert(lines(s).take(0) =~= Seq::<Seq<u8>>::empty());
    } else {
        proof_line_len_bounds(s);
        let l = line_len(s) as int;
        let t = s.skip(l);
        let j = (k - 1) as nat;
        lemma_lines_end_bound(t, j);
        let e = l + lines_end(t, j);
        let u = s.take(e);
        lemma_line_len_prefix(s, e);
        assert(u.take(l) =~= s.take(l));
        assert(u.skip(l) =~= t.take(lines_end(t, j) as int));
        lemma_lines_of_prefix(t, j);
        assert(lines(u) == seq![s.take(l)] + lines(t).take(j as int));
        assert(lines(s) == seq![s.take(l)] + lines(t));
        assert(lines(u) =~= lines(s).take(k as int));
    }
}

/// What a mode selects from `s`.
pub open spec fn selection(s: Seq<u8>, mode: SelectionMode) -> Seq<u8> {
    match mode {
        SelectionMode::Bytes(n) => s.take(kept(s.len() as int, n as int)),
        SelectionMode::Lines(n) => s.take(lines_end(s, kept(line_count(s) as int, n as int) as nat) as int),
    }
}

/// The first lines of `input`, as many as `n` asks for, each with its
/// terminator as it stood.
pub fn select_lines(input: &Vec<u8>, n: i32) -> (r: Vec<u8>)
    ensures
        r@ == selection(input@, SelectionMode::Lines(n)),
{
    let k: usize = if n >= 0 {
        n as usize
    } else {
        let total = count_lines(input);
        let drop = (-(n as i64)) as u64;
        if (total as u64) > drop { total - drop as usize } else { 0 }
    };
    let e = find_lines_end(input, k);
    proof {
        lemma_lines_end_capped(input@, k as nat);
        lemma_lines_end_bound(input@, k as nat);
    }
    let mut r: Vec<u8> = Vec::with_capacity(e);
    let mut i: usize = 0;
    while i < e
        invariant
            e <= input@.len(),
            i <= e,
            r@ == input@.take(i as int),
        decreases e - i,
    {
        r.push(input[i]);
        i = i + 1;
        assert(r@ =~= input@.take(i as int));
    }
    r
}

/// What `mode` selects from `input`.
pub fn select(input: &Vec<u8>, mode: SelectionMode) -> (r: Vec<u8>)
    ensures
        r@ == selection(input@, mode),
{
    match mode {
        SelectionMode::Bytes(n) => select_bytes(input, n),
        SelectionMode::Lines(n) => select_lines(input, n),
    }
}

/// How many leading bytes of a source `mode` can need, where that is known
/// before reading: `None` where the whole source must be read.
pub open spec fn read_limit_spec(mode: SelectionMode) -> Option<u64> {
    match mode {
        SelectionMode::Bytes(n) => if n >= 0 { Some(n as u64) } else { None },
        SelectionMode::Lines(n) => if n == 0 { Some(0u64) } else { None },
    }
}

/// How many leading bytes of a source `mode` can need, where that is known
/// before reading: `None` where the whole source must be read.
pub fn read_limit(mode: SelectionMode) -> (r: Option<u64>)
    ensures
        r == read_limit_spec(mode),
{
    match mode {
        SelectionMode::Bytes(n) => if n >= 0 { Some(n as u64) } else { None },
        SelectionMode::Lines(n) => if n == 0 { Some(0) } else { None },
    }
}

/// Reading no more of a source than `read_limit` allows selects the same
/// bytes as reading all of it.
pub proof fn limit_suffices(s: Seq<u8>, mode: SelectionMode, limit: u64)
    requires
        read_limit_spec(mode) == Some(limit),
    ensures
        selection(s.take(if limit < s.len() { limit as int } else { s.len() as int }), mode)
            == selection(s, mode),
{
    let m = if limit < s.len() { limit as int } else { s.len() as int };
    let p = s.take(m);
    match mode {
        SelectionMode::Bytes(n) => {
            assert(p.take(kept(p.len() as int, n as int)) =~= s.take(kept(s.len() as int, n as int)));
        },
        SelectionMode::Lines(n) => {
            assert(p.take(0) =~= s.take(0));
        },
    }
}

/// Selecting lines yields whole lines of the source: exactly as many as the
/// count keeps, the first ones, in order, each with its terminator.
pub proof fn selected_lines(s: Seq<u8>, n: i32)
    ensures
        lines(selection(s, SelectionMode::Lines(n))) == lines(s).take(kept(line_count(s) as int, n as int)),
        line_count(selection(s, SelectionMode::Lines(n))) == kept(line_count(s) as int, n as int),
{
    lemma_lines_of_prefix(s, kept(line_count(s) as int, n as int) as nat);
}

/// A count that reaches the size of the source selects all of it.
pub proof fn whole_source_selected(s: Seq<u8>, k: i32)
    ensures
        k >= s.len() ==> selection(s, SelectionMode::Bytes(k)) == s,
        k >= line_count(s) ==> selection(s, SelectionMode::Lines(k)) == s,
{
    if k >= s.len() {
        assert(s.take(s.len() as int) =~= s);
    }
    if k >= line_count(s) {
        lemma_lines_end_capped(s, line_count(s));
        assert(s.take(s.len() as int) =~= s);
    }
}

/// The first `k` lines of `s`, joined again, are the bytes up to where the
/// `k`-th line ends.
proof fn lemma_joined_lines(s: Seq<u8>, k: nat)
    requires
        k <= line_count(s),
    ensures
        lines(s).take(k as int).flatten() == s.take(lines_end(s, k) as int),
    decreases s.len(),
{
    if k == 0 || s.len() == 0 {
        assert(lines(s).take(k as int) =~= Seq::<Seq<u8>>::empty());
        assert(s.take(0) =~= Seq::<u8>::empty());
    } else {
        proof_line_len_bounds(s);
        let l = line_len(s) as int;
        let t = s.skip(l);
        let j = (k - 1) as nat;
        lemma_joined_lines(t, j);
        lemma_lines_end_bound(t, j);
        let ls = lines(s).take(k as int);
        assert(lines(s) == seq![s.take(l)] + lines(t));
        assert(ls =~= seq![s.take(l)] + lines(t).take(j as int));
        assert(ls.drop_first() =~= lines(t).take(j as int));
        assert(ls.flatten() == ls[0] + ls.drop_first().flatten());
        assert(s.take(l + lines_end(t, j)) =~= s.take(l) + t.take(lines_end(t, j) as int));
    }
}

/// Counts down the lines still wanted from a source read one line at a
/// time, for a count `n >= 0`.
pub struct LineBudget {
    pub left: u32,
}

impl LineBudget {
    /// A budget of `n` lines.
    pub fn new(n: i32) -> (r: LineBudget)
        requires
            n >= 0,
        ensures
            r.left == n,
    {
        LineBudget { left: n as u32 }
    }

    /// Whether another line should be read.
    pub fn wants_more(&self) -> (r: bool)
        ensures
            r == (self.left > 0),
    {
        self.left > 0
    }

    /// Records that one more line was read and printed.
    pub fn took_line(&mut self)
        requires
            old(self).left > 0,
        ensures
            final(self).left == old(self).left - 1,
    {
        self.left = self.left - 1;
    }
}

/// The budget for a mode that can be served a line at a time: `Lines(n)`
/// with `n >= 0`. Every other mode needs the bytes of the source at once.
pub fn line_budget(mode: SelectionMode) -> (r: Option<LineBudget>)
    ensures
        r matches Some(b) ==> mode matches SelectionMode::Lines(n) && n >= 0 && b.left == n,
        r is None ==> !(mode matches SelectionMode::Lines(n) && n >= 0),
{
    match mode {
        SelectionMode::Lines(n) => if n >= 0 { Some(LineBudget::new(n)) } else { None },
        SelectionMode::Bytes(_) => None,
    }
}

/// Reading lines one at a time and printing each while the budget of `n`
/// lines wants more prints exactly what `Lines(n)` selects: the first `n`
/// lines of the source joined.
pub proof fn streamed_lines(s: Seq<u8>, n: i32)
    requires
        n >= 0,
    ensures
        lines(s).take(if n < line_count(s) { n as int } else { line_count(s) as int }).flatten()
            == selection(s, SelectionMode::Lines(n)),
{
    let k = kept(line_count(s) as int, n as int) as nat;
    lemma_joined_lines(s, k);
}

} // verus!
