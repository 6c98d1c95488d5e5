//! Classification of per-path change records into index (staged) and
//! working-tree (unstaged) tallies, and their rendering.
use vstd::prelude::*;
use crate::paint::{dec, decimal, digit_char, int_dec, paint_text_in_color, painted};

verus! {

/// A kind of change, listed in the order in which tallies are rendered.
#[derive(Clone, Copy, Debug, PartialEq, Eq, Structural)]
pub enum OutputStatuses {
    Conflicted,
    Deleted,
    Modified,
    New,
    Renamed,
    TypeChange,
}

/// Number of categories.
pub const CATEGORIES: usize = 6;

/// Position of a category in the rendering order.
pub open spec fn rank(c: OutputStatuses) -> int {
    match c {
        OutputStatuses::Conflicted => 0,
        OutputStatuses::Deleted => 1,
        OutputStatuses::Modified => 2,
        OutputStatuses::New => 3,
        OutputStatuses::Renamed => 4,
        OutputStatuses::TypeChange => 5,
    }
}

/// The category at position `i` of the rendering order.
pub open spec fn category_at(i: int) -> OutputStatuses {
    if i == 0 {
        OutputStatuses::Conflicted
    } else if i == 1 {
        OutputStatuses::Deleted
    } else if i == 2 {
        OutputStatuses::Modified
    } else if i == 3 {
        OutputStatuses::New
    } else if i == 4 {
        OutputStatuses::Renamed
    } else {
        OutputStatuses::TypeChange
    }
}

/// Palette entry of each category.
pub open spec fn color_of(c: OutputStatuses) -> int {
    match c {
        OutputStatuses::Conflicted => 6,
        OutputStatuses::Deleted => 1,
        OutputStatuses::Modified => 3,
        OutputStatuses::New => 2,
        OutputStatuses::Renamed => 5,
        OutputStatuses::TypeChange => 4,
    }
}

/// A count rendered in the colour of its category.
pub open spec fn piece(use_ansi: bool, c: OutputStatuses, num: nat) -> Seq<char> {
    painted(use_ansi, color_of(c), dec(num))
}

impl OutputStatuses {
    fn position(&self) -> (r: usize)
        ensures
            r as int == rank(*self),
    {
        match self {
            OutputStatuses::Conflicted => 0,
            OutputStatuses::Deleted => 1,
            OutputStatuses::Modified => 2,
            OutputStatuses::New => 3,
            OutputStatuses::Renamed => 4,
            OutputStatuses::TypeChange => 5,
        }
    }

    fn at(i: usize) -> (r: OutputStatuses)
        requires
            i < CATEGORIES,
        ensures
            r == category_at(i as int),
    {
        if i == 0 {
            OutputStatuses::Conflicted
        } else if i == 1 {
            OutputStatuses::Deleted
        } else if i == 2 {
            OutputStatuses::Modified
        } else if i == 3 {
            OutputStatuses::New
        } else if i == 4 {
            OutputStatuses::Renamed
        } else {
            OutputStatuses::TypeChange
        }
    }

    /// The count `num` in the colour of this category.
    pub fn format(&self, use_ansi: bool, num: usize) -> (r: String)
        ensures
            r@ == piece(use_ansi, *self, num as nat),
    {
        let color: i8 = match self {
            OutputStatuses::Conflicted => 6,
            OutputStatuses::Deleted => 1,
            OutputStatuses::Modified => 3,
            OutputStatuses::New => 2,
            OutputStatuses::Renamed => 5,
            OutputStatuses::TypeChange => 4,
        };
        paint_text_in_color(use_ansi, &color, decimal(num))
    }
}

/// Rendered pieces of the first `i` categories of a tally, skipping those
/// with a zero count.
pub open spec fn pieces_upto(use_ansi: bool, tally: Seq<int>, i: int) -> Seq<Seq<char>>
    decreases i,
{
    if i <= 0 {
        Seq::empty()
    } else {
        let before = pieces_upto(use_ansi, tally, i - 1);
        if tally[i - 1] > 0 {
            before.push(piece(use_ansi, category_at(i - 1), tally[i - 1] as nat))
        } else {
            before
        }
    }
}

/// Rendered pieces of every non-zero category of a tally, in rendering order.
pub open spec fn pieces(use_ansi: bool, tally: Seq<int>) -> Seq<Seq<char>> {
    pieces_upto(use_ansi, tally, CATEGORIES as int)
}

/// The strings of `ps` joined by single spaces.
pub open spec fn join_spaced(ps: Seq<Seq<char>>) -> Seq<char>
    decreases ps.len(),
{
    if ps.len() == 0 {
        Seq::empty()
    } else if ps.len() == 1 {
        ps[0]
    } else {
        join_spaced(ps.drop_last()) + seq![' '] + ps.last()
    }
}

/// Text of a tally.
pub open spec fn tally_text(use_ansi: bool, tally: Seq<int>) -> Seq<char> {
    join_spaced(pieces(use_ansi, tally))
}

/// `tally` with one more occurrence of `c`.
pub open spec fn bumped(tally: Seq<int>, c: OutputStatuses) -> Seq<int> {
    tally.update(rank(c), tally[rank(c)] + 1)
}

/// A tally of change categories for one location (index or working tree).
#[derive(Debug)]
pub struct StatusBlock {
    use_ansi: bool,
    counts: Vec<usize>,
}

impl StatusBlock {
    /// Count of each category, indexed by rendering position.
    pub closed spec fn tally(&self) -> Seq<int> {
        Seq::new(CATEGORIES as nat, |i: int| self.counts@[i] as int)
    }

    /// Output dialect the block renders in.
    pub closed spec fn ansi(&self) -> bool {
        self.use_ansi
    }

    pub closed spec fn wf(&self) -> bool {
        self.counts@.len() == CATEGORIES
    }

    /// Every tally has one entry per category, each a count that fits in a
    /// `usize`.
    pub proof fn lemma_tally_shape(&self)
        ensures
            self.tally().len() == CATEGORIES,
            forall|i: int| 0 <= i < CATEGORIES ==> 0 <= #[trigger] self.tally()[i] <= usize::MAX,
    {
    }

    /// An empty tally.
    pub fn new(use_ansi: bool) -> (r: Self)
        ensures
            r.wf(),
            r.ansi() == use_ansi,
            r.tally() == Seq::new(CATEGORIES as nat, |i: int| 0int),
    {
        let r = StatusBlock { use_ansi, counts: vec![0usize, 0, 0, 0, 0, 0] };
        assert(r.tally() =~= Seq::new(CATEGORIES as nat, |i: int| 0int));
        r
    }

    /// Number of occurrences of `status`.
    pub fn count(&self, status: OutputStatuses) -> (r: usize)
        requires
            self.wf(),
        ensures
            r as int == self.tally()[rank(status)],
    {
        self.counts[status.position()]
    }

    /// Adds one occurrence of `status`.
    pub fn increment(&mut self, status: OutputStatuses)
        requires
            old(self).wf(),
            old(self).tally()[rank(status)] < usize::MAX,
        ensures
            final(self).wf(),
            final(self).ansi() == old(self).ansi(),
            final(self).tally() == bumped(old(self).tally(), status),
            final(self).tally().len() == CATEGORIES,
            final(self).tally()[rank(status)] >= 1,
            forall|i: int| 0 <= i < CATEGORIES ==> 0 <= #[trigger] final(self).tally()[i] <= usize::MAX,
            final(self).tally()[rank(status)] == old(self).tally()[rank(status)] + 1,
            forall|i: int| 0 <= i < CATEGORIES && i != rank(status) ==> #[trigger] final(self).tally()[i] == old(self).tally()[i],
    {
        let p = status.position();
        let v = self.counts[p];
        self.counts.set(p, v + 1);
        assert(self.tally() =~= bumped(old(self).tally(), status));
    }

    fn add_index_flags(&mut self, r: &ChangeRecord)
        requires
            old(self).wf(),
            forall|k: int| 0 <= k < CATEGORIES ==> old(self).tally()[k] < usize::MAX,
        ensures
            final(self).wf(),
            final(self).ansi() == old(self).ansi(),
            final(self).tally() == with_index_flags(old(self).tally(), *r),
    {
        let ghost t0 = self.tally();
        self.increment_if(r.index_new, OutputStatuses::New);
        self.increment_if(r.index_modified, OutputStatuses::Modified);
        assert(self.tally()[1] == t0[1] && self.tally()[4] == t0[4] && self.tally()[5] == t0[5]);
        self.increment_if(r.index_deleted, OutputStatuses::Deleted);
        self.increment_if(r.index_renamed, OutputStatuses::Renamed);
        assert(self.tally()[5] == t0[5]);
        self.increment_if(r.index_typechange, OutputStatuses::TypeChange);
        assert(self.tally() =~= with_index_flags(t0, *r));
    }

    fn add_working_flags(&mut self, r: &ChangeRecord)
        requires
            old(self).wf(),
            forall|k: int| 0 <= k < CATEGORIES ==> old(self).tally()[k] < usize::MAX,
        ensures
            final(self).wf(),
            final(self).ansi() == old(self).ansi(),
            final(self).tally() == with_working_flags(old(self).tally(), *r),
    {
        let ghost t0 = self.tally();
        self.increment_if(r.wt_new, OutputStatuses::New);
        self.increment_if(r.wt_modified, OutputStatuses::Modified);
        assert(self.tally()[0] == t0[0] && self.tally()[1] == t0[1] && self.tally()[4] == t0[4] && self.tally()[5] == t0[5]);
        self.increment_if(r.wt_deleted, OutputStatuses::Deleted);
        self.increment_if(r.wt_typechange, OutputStatuses::TypeChange);
        assert(self.tally()[0] == t0[0] && self.tally()[4] == t0[4]);
        self.increment_if(r.wt_renamed, OutputStatuses::Renamed);
        self.increment_if(r.conflicted, OutputStatuses::Conflicted);
        assert(self.tally() =~= with_working_flags(t0, *r));
    }

    fn increment_if(&mut self, flag: bool, status: OutputStatuses)
        requires
            old(self).wf(),
            old(self).tally()[rank(status)] < usize::MAX,
        ensures
            final(self).wf(),
            final(self).ansi() == old(self).ansi(),
            final(self).tally() == if flag { bumped(old(self).tally(), status) } else { old(self).tally() },
    {
        if flag {
            self.increment(status);
        }
    }

    /// The non-zero counts in rendering order, each in its category's colour,
    /// joined by single spaces.
    pub fn to_string(&self) -> (r: String)
        requires
            self.wf(),
        ensures
            r@ == tally_text(self.ansi(), self.tally()),
            self.tally().len() == CATEGORIES,
    {
        let mut out = String::new();
        let mut any = false;
        let mut i: usize = 0;
        while i < CATEGORIES
            invariant
                self.wf(),
                i <= CATEGORIES,
                out@ == join_spaced(pieces_upto(self.use_ansi, self.tally(), i as int)),
                any == (pieces_upto(self.use_ansi, self.tally(), i as int).len() > 0),
            decreases CATEGORIES - i,
        {
            let count = self.counts[i];
            if count > 0 {
                let text = OutputStatuses::at(i).format(self.use_ansi, count);
                if any {
                    proof {
                        reveal_strlit(" ");
                    }
                    out.append(" ");
                }
                out.append(text.as_str());
                proof {
                    let before = pieces_upto(self.use_ansi, self.tally(), i as int);
                    let after = pieces_upto(self.use_ansi, self.tally(), i as int + 1);
                    assert(after == before.push(text@));
                    assert(after.drop_last() =~= before);
                }
                any = true;
            }
            i = i + 1;
        }
        out
    }
}

/// The change flags git reports for one path. A path may carry several
/// flags at once, in both locations.
#[derive(Clone, Copy, Debug, PartialEq, Eq)]
pub struct ChangeRecord {
    pub index_new: bool,
    pub index_modified: bool,
    pub index_deleted: bool,
    pub index_renamed: bool,
    pub index_typechange: bool,
    pub wt_new: bool,
    pub wt_modified: bool,
    pub wt_deleted: bool,
    pub wt_typechange: bool,
    pub wt_renamed: bool,
    pub conflicted: bool,
}

/// Whether the record has category `c` in the index. Conflicts are a
/// working-tree matter only.
pub open spec fn index_has(r: ChangeRecord, c: OutputStatuses) -> bool {
    match c {
        OutputStatuses::Conflicted => false,
        OutputStatuses::Deleted => r.index_deleted,
        OutputStatuses::Modified => r.index_modified,
        OutputStatuses::New => r.index_new,
        OutputStatuses::Renamed => r.index_renamed,
        OutputStatuses::TypeChange => r.index_typechange,
    }
}

/// Whether the record has category `c` in the working tree.
pub open spec fn working_has(r: ChangeRecord, c: OutputStatuses) -> bool {
    match c {
        OutputStatuses::Conflicted => r.conflicted,
        OutputStatuses::Deleted => r.wt_deleted,
        OutputStatuses::Modified => r.wt_modified,
        OutputStatuses::New => r.wt_new,
        OutputStatuses::Renamed => r.wt_renamed,
        OutputStatuses::TypeChange => r.wt_typechange,
    }
}

/// Number of records with category `c` in the index.
pub open spec fn index_count(rs: Seq<ChangeRecord>, c: OutputStatuses) -> int
    decreases rs.len(),
{
    if rs.len() == 0 {
        0
    } else {
        index_count(rs.drop_last(), c) + if index_has(rs.last(), c) { 1int } else { 0int }
    }
}

/// Number of records with category `c` in the working tree.
pub open spec fn working_count(rs: Seq<ChangeRecord>, c: OutputStatuses) -> int
    decreases rs.len(),
{
    if rs.len() == 0 {
        0
    } else {
        working_count(rs.drop_last(), c) + if working_has(rs.last(), c) { 1int } else { 0int }
    }
}

/// `t` with one more occurrence of each category that `r` has in the index.
pub open spec fn with_index_flags(t: Seq<int>, r: ChangeRecord) -> Seq<int> {
    Seq::new(CATEGORIES as nat, |i: int| t[i] + if index_has(r, category_at(i)) { 1int } else { 0int })
}

/// `t` with one more occurrence of each category that `r` has in the
/// working tree.
pub open spec fn with_working_flags(t: Seq<int>, r: ChangeRecord) -> Seq<int> {
    Seq::new(CATEGORIES as nat, |i: int| t[i] + if working_has(r, category_at(i)) { 1int } else { 0int })
}

/// Index tally of a sequence of records, by rendering position.
pub open spec fn index_tally(rs: Seq<ChangeRecord>) -> Seq<int> {
    Seq::new(CATEGORIES as nat, |i: int| index_count(rs, category_at(i)))
}

/// Working-tree tally of a sequence of records, by rendering position.
pub open spec fn working_tally(rs: Seq<ChangeRecord>) -> Seq<int> {
    Seq::new(CATEGORIES as nat, |i: int| working_count(rs, category_at(i)))
}

/// Text of the change summary: working tally, a bar, index tally.
pub open spec fn status_text(use_ansi: bool, rs: Seq<ChangeRecord>) -> Seq<char> {
    tally_text(use_ansi, working_tally(rs)) + seq!['|'] + tally_text(use_ansi, index_tally(rs))
}

/// Number of flags set in one record.
pub open spec fn flag_count(r: ChangeRecord) -> int {
    (if r.index_new { 1int } else { 0int }) + (if r.index_modified { 1int } else { 0int })
        + (if r.index_deleted { 1int } else { 0int }) + (if r.index_renamed { 1int } else { 0int })
        + (if r.index_typechange { 1int } else { 0int }) + (if r.wt_new { 1int } else { 0int })
        + (if r.wt_modified { 1int } else { 0int }) + (if r.wt_deleted { 1int } else { 0int })
        + (if r.wt_typechange { 1int } else { 0int }) + (if r.wt_renamed { 1int } else { 0int })
        + (if r.conflicted { 1int } else { 0int })
}

/// Number of flags set over all records.
pub open spec fn total_flags(rs: Seq<ChangeRecord>) -> int
    decreases rs.len(),
{
    if rs.len() == 0 {
        0
    } else {
        total_flags(rs.drop_last()) + flag_count(rs.last())
    }
}

/// Sum of the entries of a tally.
pub open spec fn tally_sum(t: Seq<int>) -> int {
    t[0] + t[1] + t[2] + t[3] + t[4] + t[5]
}

proof fn lemma_counts_bounded(rs: Seq<ChangeRecord>, c: OutputStatuses)
    ensures
        0 <= index_count(rs, c) <= rs.len(),
        0 <= working_count(rs, c) <= rs.len(),
    decreases rs.len(),
{
    if rs.len() > 0 {
        lemma_counts_bounded(rs.drop_last(), c);
    }
}

/// Every set flag is counted exactly once: the entries of the two tallies
/// add up to the number of flags set over all records.
pub proof fn tally_sum_counts_every_flag(rs: Seq<ChangeRecord>)
    ensures
        tally_sum(index_tally(rs)) + tally_sum(working_tally(rs)) == total_flags(rs),
    decreases rs.len(),
{
    if rs.len() > 0 {
        tally_sum_counts_every_flag(rs.drop_last());
    }
}

/// The order in which occurrences are added does not change the text of a
/// tally: categories always come out in rendering order.
pub proof fn increment_order_irrelevant(use_ansi: bool, t: Seq<int>, a: OutputStatuses, b: OutputStatuses)
    requires
        t.len() == CATEGORIES,
    ensures
        bumped(bumped(t, a), b) == bumped(bumped(t, b), a),
        tally_text(use_ansi, bumped(bumped(t, a), b)) == tally_text(use_ansi, bumped(bumped(t, b), a)),
{
    assert(bumped(bumped(t, a), b) =~= bumped(bumped(t, b), a));
}

proof fn lemma_pieces_from_nonzero(use_ansi: bool, t: Seq<int>, i: int)
    requires
        0 <= i <= CATEGORIES,
        t.len() == CATEGORIES,
    ensures
        forall|k: int| 0 <= k < pieces_upto(use_ansi, t, i).len() ==> exists|j: int|
            0 <= j < i && t[j] > 0 && #[trigger] pieces_upto(use_ansi, t, i)[k] == piece(use_ansi, category_at(j), t[j] as nat),
        (forall|j: int| 0 <= j < i ==> t[j] == 0) ==> pieces_upto(use_ansi, t, i).len() == 0,
    decreases i,
{
    if i > 0 {
        lemma_pieces_from_nonzero(use_ansi, t, i - 1);
        let before = pieces_upto(use_ansi, t, i - 1);
        let after = pieces_upto(use_ansi, t, i);
        assert forall|k: int| 0 <= k < after.len() implies exists|j: int|
            0 <= j < i && t[j] > 0 && #[trigger] after[k] == piece(use_ansi, category_at(j), t[j] as nat) by {
            if k < before.len() {
                assert(after[k] == before[k]);
                let j = choose|j: int| 0 <= j < i - 1 && t[j] > 0 && #[trigger] before[k] == piece(use_ansi, category_at(j), t[j] as nat);
                assert(0 <= j < i && t[j] > 0 && after[k] == piece(use_ansi, category_at(j), t[j] as nat));
            } else {
                assert(t[i - 1] > 0 && after[k] == piece(use_ansi, category_at(i - 1), t[i - 1] as nat));
            }
        }
    }
}

/// Number of categories among the first `i` with a non-zero count.
pub open spec fn nonzero_upto(t: Seq<int>, i: int) -> int
    decreases i,
{
    if i <= 0 {
        0
    } else {
        nonzero_upto(t, i - 1) + if t[i - 1] > 0 { 1int } else { 0int }
    }
}

proof fn lemma_pieces_count(use_ansi: bool, t: Seq<int>, i: int)
    ensures
        pieces_upto(use_ansi, t, i).len() == nonzero_upto(t, i),
    decreases i,
{
    if i > 0 {
        lemma_pieces_count(use_ansi, t, i - 1);
    }
}

proof fn lemma_piece_color_digit(use_ansi: bool, c: OutputStatuses, n: nat)
    ensures
        piece(use_ansi, c, n).len() > 3,
        piece(use_ansi, c, n)[3] == digit_char(color_of(c) as nat),
{
    let k = color_of(c);
    assert(dec((k + 30) as nat) == dec(3).push(digit_char(k as nat)));
    assert(dec(3) == seq![digit_char(3)]);
    assert(int_dec(k + 30) =~= seq!['3', digit_char(k as nat)]);
    assert(int_dec(k) =~= seq![digit_char(k as nat)]);
}

/// A category with a zero count never shows: each rendered piece is the
/// count of a category that occurred, there is one piece per such category,
/// no piece is a rendering of a category that did not occur, and a tally
/// with no occurrence renders as the empty string.
pub proof fn absent_category_not_rendered(use_ansi: bool, t: Seq<int>)
    requires
        t.len() == CATEGORIES,
    ensures
        forall|k: int| 0 <= k < pieces(use_ansi, t).len() ==> exists|j: int|
            0 <= j < CATEGORIES && t[j] > 0 && #[trigger] pieces(use_ansi, t)[k] == piece(use_ansi, category_at(j), t[j] as nat),
        pieces(use_ansi, t).len() == nonzero_upto(t, CATEGORIES as int),
        forall|c: OutputStatuses, n: nat, k: int| t[rank(c)] == 0 && 0 <= k < pieces(use_ansi, t).len()
            ==> #[trigger] pieces(use_ansi, t)[k] != #[trigger] piece(use_ansi, c, n),
        (forall|j: int| 0 <= j < CATEGORIES ==> t[j] == 0) ==> tally_text(use_ansi, t).len() == 0,
{
    let ps = pieces(use_ansi, t);
    let full = pieces_upto(use_ansi, t, CATEGORIES as int);
    lemma_pieces_from_nonzero(use_ansi, t, CATEGORIES as int);
    lemma_pieces_count(use_ansi, t, CATEGORIES as int);
    assert(ps == full);
    assert forall|k: int| 0 <= k < ps.len() implies exists|j: int|
        0 <= j < CATEGORIES && t[j] > 0 && #[trigger] ps[k] == piece(use_ansi, category_at(j), t[j] as nat) by {
        assert(full[k] == ps[k]);
        let j = choose|j: int| 0 <= j < CATEGORIES && t[j] > 0 && #[trigger] full[k] == piece(use_ansi, category_at(j), t[j] as nat);
        assert(0 <= j < CATEGORIES && t[j] > 0 && ps[k] == piece(use_ansi, category_at(j), t[j] as nat));
    }
    assert forall|c: OutputStatuses, n: nat, k: int| t[rank(c)] == 0 && 0 <= k < ps.len()
        implies #[trigger] ps[k] != #[trigger] piece(use_ansi, c, n) by {
        assert(full[k] == ps[k]);
        let j = choose|j: int| 0 <= j < CATEGORIES && t[j] > 0 && #[trigger] full[k] == piece(use_ansi, category_at(j), t[j] as nat);
        let d = category_at(j);
        assert(d != c);
        lemma_piece_color_digit(use_ansi, d, t[j] as nat);
        lemma_piece_color_digit(use_ansi, c, n);
        assert(color_of(d) != color_of(c));
        assert(digit_char(color_of(d) as nat) != digit_char(color_of(c) as nat));
    }
}

/// The index and working-tree tallies of one set of records.
#[derive(Debug)]
pub struct Statuses {
    pub index: StatusBlock,
    pub working: StatusBlock,
}

impl Statuses {
    pub open spec fn wf(&self) -> bool {
        self.index.wf() && self.working.wf()
    }

    /// Two empty tallies.
    pub fn new(use_ansi: bool) -> (r: Self)
        ensures
            r.wf(),
            r.index.ansi() == use_ansi,
            r.working.ansi() == use_ansi,
            r.index.tally() == Seq::new(CATEGORIES as nat, |i: int| 0int),
            r.working.tally() == Seq::new(CATEGORIES as nat, |i: int| 0int),
    {
        Statuses { index: StatusBlock::new(use_ansi), working: StatusBlock::new(use_ansi) }
    }

    /// Adds one occurrence of `status` to the index tally.
    pub fn increment_index(&mut self, status: OutputStatuses)
        requires
            old(self).wf(),
            old(self).index.tally()[rank(status)] < usize::MAX,
        ensures
            final(self).wf(),
            final(self).index.ansi() == old(self).index.ansi(),
            final(self).index.tally() == bumped(old(self).index.tally(), status),
            final(self).index.tally().len() == CATEGORIES,
            final(self).index.tally()[rank(status)] >= 1,
            forall|i: int| 0 <= i < CATEGORIES ==> 0 <= #[trigger] final(self).index.tally()[i] <= usize::MAX,
            final(self).index.tally()[rank(status)] == old(self).index.tally()[rank(status)] + 1,
            forall|i: int| 0 <= i < CATEGORIES && i != rank(status) ==> #[trigger] final(self).index.tally()[i] == old(self).index.tally()[i],
            final(self).working == old(self).working,
    {
        self.index.increment(status);
    }

    /// Adds one occurrence of `status` to the working-tree tally.
    pub fn increment_working(&mut self, status: OutputStatuses)
        requires
            old(self).wf(),
            old(self).working.tally()[rank(status)] < usize::MAX,
        ensures
            final(self).wf(),
            final(self).working.ansi() == old(self).working.ansi(),
            final(self).working.tally() == bumped(old(self).working.tally(), status),
            final(self).working.tally().len() == CATEGORIES,
            final(self).working.tally()[rank(status)] >= 1,
            forall|i: int| 0 <= i < CATEGORIES ==> 0 <= #[trigger] final(self).working.tally()[i] <= usize::MAX,
            final(self).working.tally()[rank(status)] == old(self).working.tally()[rank(status)] + 1,
            forall|i: int| 0 <= i < CATEGORIES && i != rank(status) ==> #[trigger] final(self).working.tally()[i] == old(self).working.tally()[i],
            final(self).index == old(self).index,
    {
        self.working.increment(status);
    }

    /// Adds every flag of `r` to the tally of its location.
    pub fn add_record(&mut self, r: &ChangeRecord)
        requires
            old(self).wf(),
            forall|k: int| 0 <= k < CATEGORIES ==> old(self).index.tally()[k] < usize::MAX,
            forall|k: int| 0 <= k < CATEGORIES ==> old(self).working.tally()[k] < usize::MAX,
        ensures
            final(self).wf(),
            final(self).index.ansi() == old(self).index.ansi(),
            final(self).working.ansi() == old(self).working.ansi(),
            final(self).index.tally() == with_index_flags(old(self).index.tally(), *r),
            final(self).working.tally() == with_working_flags(old(self).working.tally(), *r),
    {
        self.index.add_index_flags(r);
        self.working.add_working_flags(r);
    }

    /// Working tally, a bar, index tally.
    pub fn to_string(&self) -> (r: String)
        requires
            self.wf(),
        ensures
            r@ == tally_text(self.working.ansi(), self.working.tally()) + seq!['|']
                + tally_text(self.index.ansi(), self.index.tally()),
    {
        proof {
            reveal_strlit("|");
        }
        let mut out = self.working.to_string();
        out.append("|");
        let index = self.index.to_string();
        out.append(index.as_str());
        out
    }
}

/// Tallies every flag of every record, in both locations.
pub fn classify(use_ansi: bool, records: &Vec<ChangeRecord>) -> (r: Statuses)
    ensures
        r.wf(),
        r.index.ansi() == use_ansi,
        r.working.ansi() == use_ansi,
        r.index.tally() == index_tally(records@),
        r.working.tally() == working_tally(records@),
        tally_sum(r.index.tally()) + tally_sum(r.working.tally()) == total_flags(records@),
{
    let mut statuses = Statuses::new(use_ansi);
    let mut i: usize = 0;
    assert(index_tally(records@.take(0)) =~= statuses.index.tally());
    assert(working_tally(records@.take(0)) =~= statuses.working.tally());
    while i < records.len()
        invariant
            i <= records@.len(),
            statuses.wf(),
            statuses.index.ansi() == use_ansi,
            statuses.working.ansi() == use_ansi,
            statuses.index.tally() == index_tally(records@.take(i as int)),
            statuses.working.tally() == working_tally(records@.take(i as int)),
        decreases records@.len() - i,
    {
        let r = records[i];
        proof {
            assert forall|k: int| 0 <= k < CATEGORIES implies
                statuses.index.tally()[k] <= i && statuses.working.tally()[k] <= i by {
                lemma_counts_bounded(records@.take(i as int), category_at(k));
            }
        }
        statuses.add_record(&r);
        proof {
            let next = records@.take(i as int + 1);
            assert(next.drop_last() =~= records@.take(i as int));
            assert(next.last() == r);
            assert(statuses.index.tally() =~= index_tally(next));
            assert(statuses.working.tally() =~= working_tally(next));
        }
        i = i + 1;
    }
    assert(records@.take(records@.len() as int) =~= records@);
    proof {
        tally_sum_counts_every_flag(records@);
    }
    statuses
}

/// Text of the change summary of `records`: the working-tree tally and the
/// index tally, separated by a bar.
pub fn get_statuses(use_ansi: bool, records: &Vec<ChangeRecord>) -> (r: String)
    ensures
        r@ == status_text(use_ansi, records@),
{
    let statuses = classify(use_ansi, records);
    statuses.to_string()
}

} // verus!
