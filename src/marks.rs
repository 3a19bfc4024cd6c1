//! Bounded sets of cells and of waypoints, kept as one mark per slot so that
//! their size can never exceed the number of slots of the grid.
use vstd::prelude::*;
use crate::geometry::{Cell, Facing, Position, State, Waypoint, in_bounds};

verus! {

/// The number of `true` entries of a sequence.
pub open spec fn count_marked(s: Seq<bool>) -> nat
    decreases s.len(),
{
    if s.len() == 0 {
        0
    } else {
        count_marked(s.drop_last()) + if s.last() {
            1nat
        } else {
            0nat
        }
    }
}

proof fn lemma_count_marked_bound(s: Seq<bool>)
    ensures
        count_marked(s) <= s.len(),
    decreases s.len(),
{
    if s.len() > 0 {
        lemma_count_marked_bound(s.drop_last());
    }
}

proof fn lemma_count_marked_below(s: Seq<bool>, i: int)
    requires
        0 <= i < s.len(),
        !s[i],
    ensures
        count_marked(s) < s.len(),
    decreases s.len(),
{
    if i == s.len() - 1 {
        lemma_count_marked_bound(s.drop_last());
    } else {
        lemma_count_marked_below(s.drop_last(), i);
    }
}

proof fn lemma_count_marked_update(s: Seq<bool>, i: int)
    requires
        0 <= i < s.len(),
        !s[i],
    ensures
        count_marked(s.update(i, true)) == count_marked(s) + 1,
    decreases s.len(),
{
    let t = s.update(i, true);
    if i == s.len() - 1 {
        assert(t.drop_last() =~= s.drop_last());
    } else {
        assert(t.drop_last() =~= s.drop_last().update(i, true));
        lemma_count_marked_update(s.drop_last(), i);
    }
}

/// The slot of cell `c` on a grid `width` cells wide, row after row.
pub open spec fn slot(width: int, c: Cell) -> int {
    c.1 * width + c.0
}

proof fn lemma_slot(width: int, height: int, c: Cell)
    requires
        in_bounds(width, height, c),
    ensures
        0 <= slot(width, c) < width * height,
{
    assert(0 <= c.1 * width) by (nonlinear_arith)
        requires
            0 <= c.1,
            0 <= width,
    ;
    assert(c.1 * width + c.0 < width * height) by (nonlinear_arith)
        requires
            0 <= c.1 < height,
            0 <= c.0 < width,
    ;
}

proof fn lemma_slot_injective(width: int, height: int, a: Cell, b: Cell)
    requires
        in_bounds(width, height, a),
        in_bounds(width, height, b),
        slot(width, a) == slot(width, b),
    ensures
        a == b,
{
    if a.1 < b.1 {
        assert(a.1 * width + a.0 < b.1 * width) by (nonlinear_arith)
            requires
                a.1 < b.1,
                0 <= a.0 < width,
        ;
    } else if b.1 < a.1 {
        assert(b.1 * width + b.0 < a.1 * width) by (nonlinear_arith)
            requires
                b.1 < a.1,
                0 <= b.0 < width,
        ;
    }
}

/// A set of cells of a grid of fixed size.
pub struct CellSet {
    width: usize,
    height: usize,
    marks: Vec<bool>,
    count: usize,
}

impl CellSet {
    /// The number of columns of the grid.
    pub closed spec fn width(&self) -> int {
        self.width as int
    }

    /// The number of rows of the grid.
    pub closed spec fn height(&self) -> int {
        self.height as int
    }

    /// The number of cells in the set.
    pub closed spec fn size(&self) -> nat {
        self.count as nat
    }

    pub closed spec fn wf(&self) -> bool {
        &&& self.marks@.len() == self.width * self.height
        &&& self.count == count_marked(self.marks@)
    }

    /// A set never holds more cells than the grid has.
    pub proof fn lemma_size_bound(&self)
        requires
            self.wf(),
        ensures
            self.size() <= self.width() * self.height(),
    {
        lemma_count_marked_bound(self.marks@);
    }

    /// A set that misses a cell of the grid holds fewer cells than the grid.
    pub proof fn lemma_size_below(&self, c: Cell)
        requires
            self.wf(),
            in_bounds(self.width(), self.height(), c),
            !self@.contains(c),
        ensures
            self.size() < self.width() * self.height(),
    {
        lemma_slot(self.width(), self.height(), c);
        lemma_count_marked_below(self.marks@, slot(self.width(), c));
    }

    /// An empty set of cells of a grid of the given size.
    pub fn new(width: usize, height: usize) -> (r: Self)
        requires
            width * height <= usize::MAX,
        ensures
            r.wf(),
            r.width() == width,
            r.height() == height,
            r@ == Set::<Cell>::empty(),
            r.size() == 0,
    {
        let n: usize = width * height;
        let marks: Vec<bool> = vec![false; n];
        proof {
            assert(forall|k: int| 0 <= k < n ==> !marks@[k]);
            lemma_count_marked_none(marks@);
        }
        let r = CellSet { width, height, marks, count: 0 };
        assert forall|c: Cell| !(#[trigger] r@.contains(c)) by {
            if in_bounds(width as int, height as int, c) {
                lemma_slot(width as int, height as int, c);
            }
        }
        assert(r@ =~= Set::<Cell>::empty());
        r
    }

    /// Adds `p`; the result tells whether it was new.
    pub fn insert(&mut self, p: &Position) -> (r: bool)
        requires
            old(self).wf(),
            in_bounds(old(self).width(), old(self).height(), p@),
        ensures
            final(self).wf(),
            final(self).width() == old(self).width(),
            final(self).height() == old(self).height(),
            final(self)@ == old(self)@.insert(p@),
            r == !old(self)@.contains(p@),
            final(self).size() == old(self).size() + if r {
                1nat
            } else {
                0nat
            },
            final(self).size() <= final(self).width() * final(self).height(),
    {
        let len = self.marks.len();
        proof {
            lemma_slot(self.width(), self.height(), p@);
        }
        let i = p.y * self.width + p.x;
        if self.marks[i] {
            proof {
                lemma_count_marked_bound(self.marks@);
            }
            return false;
        }
        proof {
            lemma_count_marked_update(self.marks@, i as int);
            lemma_count_marked_bound(self.marks@.update(i as int, true));
        }
        self.marks.set(i, true);
        self.count = self.count + 1;
        assert forall|c: Cell| #[trigger] self@.contains(c) <==> old(self)@.insert(p@).contains(c) by {
            if in_bounds(self.width(), self.height(), c) {
                lemma_slot(self.width(), self.height(), c);
                if slot(self.width(), c) == i {
                    lemma_slot_injective(self.width(), self.height(), c, p@);
                }
            }
        }
        assert(self@ =~= old(self)@.insert(p@));
        true
    }
}

proof fn lemma_count_marked_none(s: Seq<bool>)
    requires
        forall|k: int| 0 <= k < s.len() ==> !s[k],
    ensures
        count_marked(s) == 0,
    decreases s.len(),
{
    if s.len() > 0 {
        lemma_count_marked_none(s.drop_last());
    }
}

impl View for CellSet {
    type V = Set<Cell>;

    closed spec fn view(&self) -> Set<Cell> {
        Set::new(
            |c: Cell|
                in_bounds(self.width as int, self.height as int, c) && self.marks@[slot(
                    self.width as int,
                    c,
                )],
        )
    }
}

/// A set of waypoints of a grid of fixed size: one set of cells per facing.
pub struct WaypointSet {
    up: CellSet,
    down: CellSet,
    left: CellSet,
    right: CellSet,
}

impl WaypointSet {
    closed spec fn layer(&self, f: Facing) -> CellSet {
        match f {
            Facing::Up => self.up,
            Facing::Down => self.down,
            Facing::Left => self.left,
            Facing::Right => self.right,
        }
    }

    /// The number of columns of the grid.
    pub closed spec fn width(&self) -> int {
        self.up.width()
    }

    /// The number of rows of the grid.
    pub closed spec fn height(&self) -> int {
        self.up.height()
    }

    /// The number of waypoints in the set.
    pub closed spec fn size(&self) -> nat {
        self.up.size() + self.down.size() + self.left.size() + self.right.size()
    }

    pub closed spec fn wf(&self) -> bool {
        &&& forall|f: Facing| #[trigger] self.layer(f).wf()
        &&& forall|f: Facing|
            #[trigger] self.layer(f).width() == self.width() && self.layer(f).height() == self.height()
    }

    /// A set that misses a waypoint on the grid holds fewer waypoints than
    /// four per cell.
    pub proof fn lemma_size_below(&self, s: State)
        requires
            self.wf(),
            in_bounds(self.width(), self.height(), s.0),
            !self@.contains(s),
        ensures
            self.size() < 4 * self.width() * self.height(),
    {
        let w = self.width();
        let h = self.height();
        assert(self.layer(Facing::Up).wf() && self.layer(Facing::Down).wf());
        assert(self.layer(Facing::Left).wf() && self.layer(Facing::Right).wf());
        assert(self.layer(Facing::Down).width() == self.width());
        assert(self.layer(Facing::Down).height() == self.height());
        assert(self.layer(Facing::Left).width() == self.width());
        assert(self.layer(Facing::Left).height() == self.height());
        assert(self.layer(Facing::Right).width() == self.width());
        assert(self.layer(Facing::Right).height() == self.height());
        self.up.lemma_size_bound();
        self.down.lemma_size_bound();
        self.left.lemma_size_bound();
        self.right.lemma_size_bound();
        match s.1 {
            Facing::Up => self.up.lemma_size_below(s.0),
            Facing::Down => self.down.lemma_size_below(s.0),
            Facing::Left => self.left.lemma_size_below(s.0),
            Facing::Right => self.right.lemma_size_below(s.0),
        }
        assert(4 * w * h == 4 * (w * h)) by (nonlinear_arith);
    }

    /// An empty set of waypoints of a grid of the given size.
    pub fn new(width: usize, height: usize) -> (r: Self)
        requires
            width * height <= usize::MAX,
        ensures
            r.wf(),
            r.width() == width,
            r.height() == height,
            r@ == Set::<State>::empty(),
            r.size() == 0,
    {
        let r = WaypointSet {
            up: CellSet::new(width, height),
            down: CellSet::new(width, height),
            left: CellSet::new(width, height),
            right: CellSet::new(width, height),
        };
        assert forall|f: Facing| #[trigger] r.layer(f).wf() by {}
        assert forall|f: Facing|
            #[trigger] r.layer(f).width() == r.width() && r.layer(f).height() == r.height() by {}
        assert(r@ =~= Set::<State>::empty());
        r
    }

    /// Adds `w`; the result tells whether it was new.
    pub fn insert(&mut self, w: &Waypoint) -> (r: bool)
        requires
            old(self).wf(),
            in_bounds(old(self).width(), old(self).height(), w.position@),
        ensures
            final(self).wf(),
            final(self).width() == old(self).width(),
            final(self).height() == old(self).height(),
            final(self)@ == old(self)@.insert(w@),
            r == !old(self)@.contains(w@),
            final(self).size() == old(self).size() + if r {
                1nat
            } else {
                0nat
            },
            final(self).size() <= 4 * final(self).width() * final(self).height(),
    {
        assert(self.layer(w.facing).wf());
        let r = match w.facing {
            Facing::Up => self.up.insert(&w.position),
            Facing::Down => self.down.insert(&w.position),
            Facing::Left => self.left.insert(&w.position),
            Facing::Right => self.right.insert(&w.position),
        };
        assert forall|f: Facing| #[trigger] self.layer(f).wf() by {
            assert(old(self).layer(f).wf());
        }
        assert forall|f: Facing|
            #[trigger] self.layer(f).width() == self.width() && self.layer(f).height() == self.height() by {
            assert(old(self).layer(f).width() == old(self).width());
            assert(old(self).layer(f).height() == old(self).height());
        }
        assert(self.layer(Facing::Up).wf() && self.layer(Facing::Down).wf());
        assert(self.layer(Facing::Left).wf() && self.layer(Facing::Right).wf());
        proof {
            self.up.lemma_size_bound();
            self.down.lemma_size_bound();
            self.left.lemma_size_bound();
            self.right.lemma_size_bound();
            let w = self.width();
            let h = self.height();
            assert(self.layer(Facing::Down).width() == w && self.layer(Facing::Down).height() == h);
            assert(self.layer(Facing::Left).width() == w && self.layer(Facing::Left).height() == h);
            assert(self.layer(Facing::Right).width() == w && self.layer(Facing::Right).height() == h);
            assert(4 * w * h == 4 * (w * h)) by (nonlinear_arith);
        }
        assert(self@ =~= old(self)@.insert(w@));
        r
    }
}

impl View for WaypointSet {
    type V = Set<State>;

    closed spec fn view(&self) -> Set<State> {
        Set::new(|s: State| self.layer(s.1)@.contains(s.0))
    }
}

} // verus!
