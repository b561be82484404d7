//! The strip: an ordered row of columns, each a single window or a vertical
//! stack of windows, and the arithmetic that lays it out in a viewport.

use std::collections::{HashMap, VecDeque};
use vstd::prelude::*;
use crate::binpack::{
    binpack, binpack_heights, heights_valid, ints, lemma_binpack_nonneg, lemma_total_prefix, total,
};
use crate::errors::Error;
use crate::geometry::{clamp_i32, fits_i32, spec_clamp, IRect, IVec2};

verus! {

/// The handle of a window (or of any other entity of the model).
pub type Entity = u64;

/// The identifier the operating system gives a workspace.
pub type WorkspaceId = u64;

/// One cell of a strip: a single window, or a stack of windows, top first.
#[derive(Clone, Debug)]
pub enum Column {
    Single(Entity),
    Stack(Vec<Entity>),
}

/// Index of the first occurrence of `e` in `s`, or `s.len()` where there is none.
pub open spec fn first_index(s: Seq<Entity>, e: Entity) -> int
    decreases s.len(),
{
    if s.len() == 0 {
        0
    } else if s[0] == e {
        0
    } else {
        1 + first_index(s.drop_first(), e)
    }
}

pub proof fn lemma_first_index(s: Seq<Entity>, e: Entity)
    ensures
        0 <= first_index(s, e) <= s.len(),
        first_index(s, e) < s.len() ==> s[first_index(s, e)] == e,
        forall|j: int| 0 <= j < first_index(s, e) ==> s[j] != e,
        s.contains(e) <==> first_index(s, e) < s.len(),
    decreases s.len(),
{
    if s.len() == 0 {
    } else if s[0] == e {
    } else {
        let t = s.drop_first();
        lemma_first_index(t, e);
        assert forall|j: int| 0 <= j < first_index(s, e) implies s[j] != e by {
            if j > 0 {
                assert(s[j] == t[j - 1]);
            }
        }
        if s.contains(e) {
            let k = choose|k: int| 0 <= k < s.len() && s[k] == e;
            assert(t[k - 1] == e);
            assert(t.contains(e));
        }
        if first_index(s, e) < s.len() {
            assert(s[first_index(s, e)] == t[first_index(t, e)]);
        }
    }
}

/// `i` is the first column of `cols` that holds `e`.
pub open spec fn is_column_of(cols: Seq<Seq<Entity>>, e: Entity, i: int) -> bool {
    &&& 0 <= i < cols.len()
    &&& cols[i].contains(e)
    &&& forall|j: int| 0 <= j < i ==> !(#[trigger] cols[j]).contains(e)
}

/// Some column of `cols` holds `e`.
pub open spec fn holds(cols: Seq<Seq<Entity>>, e: Entity) -> bool {
    exists|i: int| 0 <= i < cols.len() && (#[trigger] cols[i]).contains(e)
}

/// The first column that holds `e`; meaningful where `holds(cols, e)`.
pub open spec fn column_of(cols: Seq<Seq<Entity>>, e: Entity) -> int {
    choose|i: int| is_column_of(cols, e, i)
}

/// A held entity has exactly one first column.
pub proof fn lemma_column_of(cols: Seq<Seq<Entity>>, e: Entity)
    ensures
        holds(cols, e) ==> is_column_of(cols, e, column_of(cols, e)),
        forall|i: int| is_column_of(cols, e, i) ==> holds(cols, e) && i == column_of(cols, e),
{
    if holds(cols, e) {
        let k = choose|i: int| 0 <= i < cols.len() && (#[trigger] cols[i]).contains(e);
        lemma_least_column(cols, e, k);
    }
    assert forall|i: int| is_column_of(cols, e, i) implies holds(cols, e) && i == column_of(
        cols,
        e,
    ) by {
        let c = column_of(cols, e);
        assert(is_column_of(cols, e, c));
        if i < c {
            assert(!cols[i].contains(e));
        } else if c < i {
            assert(!cols[c].contains(e));
        }
    }
}

proof fn lemma_least_column(cols: Seq<Seq<Entity>>, e: Entity, k: int)
    requires
        0 <= k < cols.len(),
        cols[k].contains(e),
    ensures
        exists|i: int| is_column_of(cols, e, i),
    decreases k,
{
    if forall|j: int| 0 <= j < k ==> !(#[trigger] cols[j]).contains(e) {
        assert(is_column_of(cols, e, k));
    } else {
        let j = choose|j: int| 0 <= j < k && (#[trigger] cols[j]).contains(e);
        lemma_least_column(cols, e, j);
    }
}

/// The window at height `pos` of a column, or its bottom window where the
/// column is shorter.
pub open spec fn at_or_last_of(col: Seq<Entity>, pos: int) -> Entity {
    if pos < col.len() {
        col[pos]
    } else {
        col[col.len() - 1]
    }
}

/// What a strip is made of: every column is non-empty and lists no window twice.
pub open spec fn columns_wf(cols: Seq<Seq<Entity>>) -> bool {
    forall|i: int|
        0 <= i < cols.len() ==> (#[trigger] cols[i]).len() >= 1 && cols[i].no_duplicates()
}

/// No window is in two columns.
pub open spec fn columns_disjoint(cols: Seq<Seq<Entity>>) -> bool {
    forall|i: int, j: int, e: Entity|
        0 <= i < j < cols.len() && #[trigger] cols[i].contains(e) ==> !#[trigger] cols[j].contains(
            e,
        )
}

fn find_in(v: &Vec<Entity>, e: Entity) -> (r: Option<usize>)
    ensures
        match r {
            Some(i) => i == first_index(v@, e) && i < v.len(),
            None => first_index(v@, e) == v.len(),
        },
        r.is_some() <==> v@.contains(e),
{
    let mut i: usize = 0;
    while i < v.len()
        invariant
            i <= v.len(),
            forall|j: int| 0 <= j < i ==> v@[j] != e,
        decreases v.len() - i,
    {
        if v[i] == e {
            proof {
                lemma_first_index(v@, e);
            }
            return Some(i);
        }
        i += 1;
    }
    proof {
        lemma_first_index(v@, e);
    }
    None
}

impl Column {
    /// The windows of the column, top first.
    pub open spec fn windows(&self) -> Seq<Entity> {
        match self {
            Column::Single(e) => seq![*e],
            Column::Stack(v) => v@,
        }
    }

    /// A stack holds at least two windows; no column lists a window twice.
    pub open spec fn wf(&self) -> bool {
        match self {
            Column::Single(_) => true,
            Column::Stack(v) => v@.len() >= 2 && v@.no_duplicates(),
        }
    }

    /// The top window of the column.
    pub fn top(&self) -> (r: Option<Entity>)
        ensures
            r == (if self.windows().len() > 0 {
                Some(self.windows()[0])
            } else {
                None
            }),
    {
        match self {
            Column::Single(id) => Some(*id),
            Column::Stack(stack) => {
                if stack.len() > 0 {
                    Some(stack[0])
                } else {
                    None
                }
            },
        }
    }

    /// The window at height `index`, or the bottom window where the column is
    /// shorter than that.
    pub fn at_or_last(&self, index: usize) -> (r: Option<Entity>)
        ensures
            r == (if self.windows().len() > 0 {
                Some(at_or_last_of(self.windows(), index as int))
            } else {
                None
            }),
    {
        match self {
            Column::Single(id) => Some(*id),
            Column::Stack(stack) => {
                if index < stack.len() {
                    Some(stack[index])
                } else if stack.len() > 0 {
                    Some(stack[stack.len() - 1])
                } else {
                    None
                }
            },
        }
    }

    /// The height at which `entity` sits in this column: 0 for a single
    /// window, the index from the top in a stack.
    pub fn position_of(&self, entity: Entity) -> (r: Option<usize>)
        ensures
            r.is_some() <==> self.windows().contains(entity),
            r.is_some() ==> r.unwrap() == first_index(self.windows(), entity),
    {
        match self {
            Column::Single(id) => {
                proof {
                    lemma_first_index(self.windows(), entity);
                }
                if *id == entity {
                    Some(0)
                } else {
                    None
                }
            },
            Column::Stack(stack) => find_in(stack, entity),
        }
    }

    /// A copy of the column.
    pub fn duplicate(&self) -> (c: Column)
        ensures
            c.windows() == self.windows(),
            c.wf() == self.wf(),
            (c is Stack) == (self is Stack),
    {
        match self {
            Column::Single(id) => Column::Single(*id),
            Column::Stack(stack) => {
                let mut copy: Vec<Entity> = Vec::new();
                let mut i: usize = 0;
                while i < stack.len()
                    invariant
                        i <= stack.len(),
                        copy@ == stack@.subrange(0, i as int),
                    decreases stack.len() - i,
                {
                    copy.push(stack[i]);
                    assert(copy@ == stack@.subrange(0, i + 1));
                    i += 1;
                }
                assert(copy@ == stack@);
                Column::Stack(copy)
            },
        }
    }
}


/// `s` without the first occurrence of `e`.
pub open spec fn without(s: Seq<Entity>, e: Entity) -> Seq<Entity> {
    if first_index(s, e) < s.len() {
        s.remove(first_index(s, e))
    } else {
        s
    }
}

/// The columns after `e` entered the strip as a column of its own at
/// `at`, or at the end where the strip is shorter than that; a strip that
/// holds `e` already stays as it is.
pub open spec fn entered_at(cols: Seq<Seq<Entity>>, at: int, e: Entity) -> Seq<Seq<Entity>> {
    if holds(cols, e) {
        cols
    } else {
        cols.insert(spec_min_len(at, cols.len() as int), seq![e])
    }
}

/// The columns after `e` entered the strip as its last column; a strip
/// that holds `e` already stays as it is.
pub open spec fn appended(cols: Seq<Seq<Entity>>, e: Entity) -> Seq<Seq<Entity>> {
    if holds(cols, e) {
        cols
    } else {
        cols.push(seq![e])
    }
}

/// The columns after `e` left the strip: a single window takes its column
/// with it, a stack shrinks in place.
pub open spec fn removed(cols: Seq<Seq<Entity>>, e: Entity) -> Seq<Seq<Entity>> {
    if !holds(cols, e) {
        cols
    } else {
        let i = column_of(cols, e);
        if cols[i].len() == 1 {
            cols.remove(i)
        } else {
            cols.update(i, without(cols[i], e))
        }
    }
}

/// The columns after `e` was merged onto the column to its left.
pub open spec fn stacked(cols: Seq<Seq<Entity>>, e: Entity) -> Seq<Seq<Entity>> {
    let i = column_of(cols, e);
    if !holds(cols, e) || i == 0 || cols[i].len() >= 2 {
        cols
    } else {
        cols.remove(i).update(i - 1, cols[i - 1].push(e))
    }
}

/// The columns after `e` left its stack: `e` becomes a column of its own
/// where the stack stood, and what is left of the stack follows it.
pub open spec fn unstacked(cols: Seq<Seq<Entity>>, e: Entity) -> Seq<Seq<Entity>> {
    let i = column_of(cols, e);
    if !holds(cols, e) || cols[i].len() < 2 {
        cols
    } else {
        cols.update(i, without(cols[i], e)).insert(i, seq![e])
    }
}

/// The neighbour of `e` in the column `step` places away: the window at the
/// same height there, or that column's bottom window.
pub open spec fn neighbour(cols: Seq<Seq<Entity>>, e: Entity, step: int) -> Option<Entity> {
    let i = column_of(cols, e);
    if holds(cols, e) && 0 <= i + step < cols.len() && cols[i + step].len() > 0 {
        Some(at_or_last_of(cols[i + step], first_index(cols[i], e)))
    } else {
        None
    }
}

/// Every window of the strip, column by column, each stack from the top.
pub open spec fn flattened(cols: Seq<Seq<Entity>>) -> Seq<Entity>
    decreases cols.len(),
{
    if cols.len() == 0 {
        Seq::empty()
    } else {
        flattened(cols.drop_last()) + cols.last()
    }
}

/// The top window of every column.
pub open spec fn tops(cols: Seq<Seq<Entity>>) -> Seq<Entity>
    decreases cols.len(),
{
    if cols.len() == 0 {
        Seq::empty()
    } else if cols.last().len() > 0 {
        tops(cols.drop_last()).push(cols.last()[0])
    } else {
        tops(cols.drop_last())
    }
}

proof fn lemma_without(s: Seq<Entity>, e: Entity)
    requires
        s.no_duplicates(),
    ensures
        without(s, e).no_duplicates(),
        !without(s, e).contains(e),
        s.contains(e) ==> without(s, e).len() == s.len() - 1,
        !s.contains(e) ==> without(s, e) == s,
        forall|x: Entity| x != e ==> (without(s, e).contains(x) <==> s.contains(x)),
{
    lemma_first_index(s, e);
    let p = first_index(s, e);
    if p < s.len() {
        let r = s.remove(p);
        assert forall|a: int, b: int| 0 <= a < r.len() && 0 <= b < r.len() && a != b implies r[a]
            != r[b] by {
            let a2 = if a < p { a } else { a + 1 };
            let b2 = if b < p { b } else { b + 1 };
            assert(r[a] == s[a2] && r[b] == s[b2]);
        }
        if r.contains(e) {
            let k = choose|k: int| 0 <= k < r.len() && r[k] == e;
            let k2 = if k < p { k } else { k + 1 };
            assert(r[k] == s[k2]);
        }
        assert forall|x: Entity| x != e implies (r.contains(x) <==> s.contains(x)) by {
            if r.contains(x) {
                let k = choose|k: int| 0 <= k < r.len() && r[k] == x;
                let k2 = if k < p { k } else { k + 1 };
                assert(r[k] == s[k2]);
            }
            if s.contains(x) {
                let k = choose|k: int| 0 <= k < s.len() && s[k] == x;
                let k2 = if k < p { k } else { k - 1 };
                assert(r[k2] == s[k]);
            }
        }
    }
}

fn vec_without(v: &Vec<Entity>, e: Entity) -> (r: Vec<Entity>)
    ensures
        r@ == without(v@, e),
{
    let mut out: Vec<Entity> = Vec::new();
    let found = find_in(v, e);
    let skip: usize = match found {
        Some(p) => p,
        None => v.len(),
    };
    let mut i: usize = 0;
    while i < v.len()
        invariant
            i <= v.len(),
            skip <= v.len(),
            i <= skip ==> out@ == v@.subrange(0, i as int),
            i > skip ==> out@ == v@.subrange(0, i as int).remove(skip as int),
        decreases v.len() - i,
    {
        if i != skip {
            out.push(v[i]);
        }
        proof {
            if i < skip {
                assert(out@ =~= v@.subrange(0, i + 1));
            } else if i == skip {
                assert(out@ =~= v@.subrange(0, i + 1).remove(skip as int));
            } else {
                assert(out@ =~= v@.subrange(0, i + 1).remove(skip as int));
            }
        }
        i += 1;
    }
    proof {
        assert(v@.subrange(0, v.len() as int) =~= v@);
    }
    out
}

/// One workspace's horizontal arrangement: its columns from left to right.
#[derive(Debug)]
pub struct LayoutStrip {
    id: WorkspaceId,
    columns: VecDeque<Column>,
}

impl View for LayoutStrip {
    type V = Seq<Seq<Entity>>;

    /// The columns from left to right, each as its windows from the top.
    closed spec fn view(&self) -> Seq<Seq<Entity>> {
        Seq::new(self.columns@.len(), |i: int| self.columns@[i].windows())
    }
}

impl LayoutStrip {
    /// The representation is sound: every stack holds two windows or
    /// more, no column lists a window twice, and no window is in two
    /// columns.
    pub closed spec fn wf(&self) -> bool {
        &&& forall|i: int| 0 <= i < self.columns@.len() ==> (#[trigger] self.columns@[i]).wf()
        &&& columns_disjoint(self@)
    }

    /// The workspace this strip belongs to.
    pub closed spec fn spec_id(&self) -> WorkspaceId {
        self.id
    }

    /// A sound strip has no empty column, no column that repeats a window
    /// and no window in two columns.
    pub proof fn lemma_wf(&self)
        requires
            self.wf(),
        ensures
            columns_wf(self@),
            columns_disjoint(self@),
    {
        assert forall|i: int| 0 <= i < self@.len() implies (#[trigger] self@[i]).len() >= 1
            && self@[i].no_duplicates() by {
            assert(self.columns@[i].wf());
        }
    }

    /// An empty strip for the workspace `id`.
    pub fn new(id: WorkspaceId) -> (s: LayoutStrip)
        ensures
            s@ == Seq::<Seq<Entity>>::empty(),
            s.spec_id() == id,
            s.wf(),
    {
        let s = LayoutStrip { id, columns: VecDeque::new() };
        assert(s@ =~= Seq::<Seq<Entity>>::empty());
        s
    }

    #[verifier::when_used_as_spec(spec_id)]
    pub fn id(&self) -> (id: WorkspaceId)
        ensures
            id == self.spec_id(),
    {
        self.id
    }

    pub open spec fn spec_len(&self) -> usize {
        self@.len() as usize
    }

    /// The number of columns.
    #[verifier::when_used_as_spec(spec_len)]
    pub fn len(&self) -> (n: usize)
        ensures
            n == self@.len(),
    {
        self.columns.len()
    }

    /// The index of the first column that holds `entity`, be it alone there
    /// or anywhere in a stack.
    pub fn index_of(&self, entity: Entity) -> (r: Result<usize, Error>)
        ensures
            match r {
                Ok(i) => is_column_of(self@, entity, i as int) && i == column_of(self@, entity)
                    && i < self@.len() && holds(self@, entity),
                Err(err) => err == Error::NotFound && !holds(self@, entity),
            },
    {
        let mut i: usize = 0;
        while i < self.columns.len()
            invariant
                i <= self.columns.len(),
                forall|j: int| 0 <= j < i ==> !(#[trigger] self@[j]).contains(entity),
            decreases self.columns.len() - i,
        {
            let here = self.columns[i].position_of(entity);
            assert(self@[i as int] == self.columns@[i as int].windows());
            if here.is_some() {
                proof {
                    assert(is_column_of(self@, entity, i as int));
                    lemma_column_of(self@, entity);
                }
                return Ok(i);
            }
            i += 1;
        }
        Err(Error::NotFound)
    }

    /// Puts `entity` into the strip as a column of its own at position
    /// `after`, or at the end where the strip is shorter than that.
    /// Nothing changes where the strip holds `entity` already.
    pub fn insert_at(&mut self, after: usize, entity: Entity)
        requires
            old(self).wf(),
        ensures
            final(self).wf(),
            final(self).spec_id() == old(self).spec_id(),
            final(self)@ == entered_at(old(self)@, after as int, entity),
    {
        if self.index_of(entity).is_ok() {
            return ;
        }
        proof {
            self.lemma_wf();
            lemma_entered(
                self@,
                spec_min_len(after as int, self@.len() as int),
                entity,
            );
        }
        if after >= self.columns.len() {
            self.columns.push_back(Column::Single(entity));
            assert(self@ =~= old(self)@.insert(old(self)@.len() as int, seq![entity]));
        } else {
            self.columns.insert(after, Column::Single(entity));
            assert(self@ =~= old(self)@.insert(after as int, seq![entity]));
        }
    }

    /// Adds `entity` as the last column. Nothing changes where the strip
    /// holds `entity` already.
    pub fn append(&mut self, entity: Entity)
        requires
            old(self).wf(),
        ensures
            final(self).wf(),
            final(self).spec_id() == old(self).spec_id(),
            final(self)@ == appended(old(self)@, entity),
    {
        if self.index_of(entity).is_ok() {
            return ;
        }
        proof {
            self.lemma_wf();
            lemma_entered(self@, self@.len() as int, entity);
            assert(self@.insert(self@.len() as int, seq![entity]) =~= self@.push(seq![entity]));
        }
        self.columns.push_back(Column::Single(entity));
        assert(self@ =~= old(self)@.push(seq![entity]));
    }

    /// Takes `entity` out of the strip. A stack left with one window becomes
    /// a single column; a strip that does not hold `entity` stays as it is.
    pub fn remove(&mut self, entity: Entity)
        requires
            old(self).wf(),
        ensures
            final(self).wf(),
            final(self).spec_id() == old(self).spec_id(),
            final(self)@ == removed(old(self)@, entity),
    {
        proof {
            self.lemma_wf();
            lemma_removed(self@, entity);
        }
        let found = self.index_of(entity);
        match found {
            Err(_) => {},
            Ok(index) => {
                assert(old(self).columns@[index as int].wf());
                assert(old(self)@[index as int] == old(self).columns@[index as int].windows());
                let column = self.columns.remove(index);
                match column {
                    None => {},
                    Some(Column::Single(_)) => {
                        assert(self@ =~= old(self)@.remove(index as int));
                    },
                    Some(Column::Stack(stack)) => {
                        let rest = vec_without(&stack, entity);
                        proof {
                            lemma_without(stack@, entity);
                        }
                        if rest.len() > 1 {
                            self.columns.insert(index, Column::Stack(rest));
                        } else {
                            let only = rest[0];
                            assert(rest@ =~= seq![only]);
                            self.columns.insert(index, Column::Single(only));
                        }
                        assert(self@ =~= old(self)@.update(
                            index as int,
                            without(old(self)@[index as int], entity),
                        ));
                    },
                }
            },
        }
    }

    /// The column at position `at`.
    pub fn get(&self, at: usize) -> (r: Result<Column, Error>)
        requires
            self.wf(),
        ensures
            match r {
                Ok(c) => at < self@.len() && c.windows() == self@[at as int] && c.wf() && (c is Stack
                    <==> self@[at as int].len() >= 2),
                Err(err) => err == Error::InvalidInput && at >= self@.len(),
            },
    {
        if at < self.columns.len() {
            assert(self.columns@[at as int].wf());
            Ok(self.columns[at].duplicate())
        } else {
            Err(Error::InvalidInput)
        }
    }

    /// Exchanges the columns at `left` and `right`. Nothing changes where
    /// the strip has no column at one of the two places.
    pub fn swap(&mut self, left: usize, right: usize)
        requires
            old(self).wf(),
        ensures
            final(self).wf(),
            final(self).spec_id() == old(self).spec_id(),
            final(self)@ == (if left < old(self)@.len() && right < old(self)@.len() {
                old(self)@.update(left as int, old(self)@[right as int]).update(
                    right as int,
                    old(self)@[left as int],
                )
            } else {
                old(self)@
            }),
    {
        if left >= self.columns.len() || right >= self.columns.len() {
            return ;
        }
        let a = self.columns[left].duplicate();
        let b = self.columns[right].duplicate();
        assert(old(self).columns@[left as int].wf());
        assert(old(self).columns@[right as int].wf());
        self.columns.remove(left);
        self.columns.insert(left, b);
        self.columns.remove(right);
        self.columns.insert(right, a);
        assert(self@ =~= old(self)@.update(left as int, old(self)@[right as int]).update(
            right as int,
            old(self)@[left as int],
        ));
    }

    /// The leftmost column.
    pub fn first(&self) -> (r: Result<Column, Error>)
        requires
            self.wf(),
        ensures
            match r {
                Ok(c) => self@.len() > 0 && c.windows() == self@[0] && c.wf() && (c is Stack
                    <==> self@[0].len() >= 2),
                Err(err) => err == Error::NotFound && self@.len() == 0,
            },
    {
        if self.columns.len() > 0 {
            assert(self.columns@[0].wf());
            Ok(self.columns[0].duplicate())
        } else {
            Err(Error::NotFound)
        }
    }

    /// The rightmost column.
    pub fn last(&self) -> (r: Result<Column, Error>)
        requires
            self.wf(),
        ensures
            match r {
                Ok(c) => self@.len() > 0 && c.windows() == self@.last() && c.wf() && (c is Stack
                    <==> self@.last().len() >= 2),
                Err(err) => err == Error::NotFound && self@.len() == 0,
            },
    {
        let n = self.columns.len();
        if n > 0 {
            assert(self.columns@[n - 1].wf());
            Ok(self.columns[n - 1].duplicate())
        } else {
            Err(Error::NotFound)
        }
    }
}

proof fn lemma_push_fresh(s: Seq<Entity>, e: Entity)
    requires
        s.no_duplicates(),
        !s.contains(e),
    ensures
        s.push(e).no_duplicates(),
{
    let r = s.push(e);
    assert forall|a: int, b: int| 0 <= a < r.len() && 0 <= b < r.len() && a != b implies r[a]
        != r[b] by {
        if a < s.len() {
            assert(s.contains(r[a]));
        }
        if b < s.len() {
            assert(s.contains(r[b]));
        }
    }
}

impl LayoutStrip {
    /// The window beside `entity` in the next column to the right.
    pub fn right_neighbour(&self, entity: Entity) -> (r: Option<Entity>)
        requires
            self.wf(),
        ensures
            r == neighbour(self@, entity, 1),
    {
        let index = match self.index_of(entity) {
            Ok(index) => index,
            Err(_) => {
                return None;
            },
        };
        assert(self@[index as int] == self.columns@[index as int].windows());
        let stack_pos = match self.columns[index].position_of(entity) {
            Some(pos) => pos,
            None => {
                return None;
            },
        };
        assert(index < self.columns.len());
        if index + 1 < self.columns.len() {
            assert(self@[index + 1] == self.columns@[index + 1].windows());
            assert(self.columns@[index + 1].wf());
            self.columns[index + 1].at_or_last(stack_pos)
        } else {
            None
        }
    }

    /// The window beside `entity` in the next column to the left.
    pub fn left_neighbour(&self, entity: Entity) -> (r: Option<Entity>)
        requires
            self.wf(),
        ensures
            r == neighbour(self@, entity, -1),
    {
        let index = match self.index_of(entity) {
            Ok(index) => index,
            Err(_) => {
                return None;
            },
        };
        assert(self@[index as int] == self.columns@[index as int].windows());
        let stack_pos = match self.columns[index].position_of(entity) {
            Some(pos) => pos,
            None => {
                return None;
            },
        };
        if index > 0 {
            assert(self@[index - 1] == self.columns@[index - 1].windows());
            assert(self.columns@[index - 1].wf());
            self.columns[index - 1].at_or_last(stack_pos)
        } else {
            None
        }
    }

    /// Merges the column of `entity` onto the column to its left, where
    /// `entity` becomes the bottom window. Nothing changes where `entity` is
    /// in the leftmost column or already part of a stack.
    pub fn stack(&mut self, entity: Entity) -> (r: Result<(), Error>)
        requires
            old(self).wf(),
        ensures
            final(self).wf(),
            final(self).spec_id() == old(self).spec_id(),
            match r {
                Ok(_) => holds(old(self)@, entity) && final(self)@ == stacked(old(self)@, entity),
                Err(err) => err == Error::NotFound && !holds(old(self)@, entity) && final(self)@
                    == old(self)@,
            },
    {
        proof {
            self.lemma_wf();
            lemma_stacked(self@, entity);
        }
        let index = match self.index_of(entity) {
            Ok(index) => index,
            Err(err) => {
                return Err(err);
            },
        };
        if index == 0 {
            return Ok(());
        }
        assert(self@[index as int] == self.columns@[index as int].windows());
        assert(self.columns@[index as int].wf());
        assert(self@[index - 1] == self.columns@[index - 1].windows());
        assert(self.columns@[index - 1].wf());
        if let Column::Stack(_) = self.columns[index] {
            return Ok(());
        }
        self.columns.remove(index);
        let column = self.columns.remove(index - 1);
        let newstack = match column {
            Some(Column::Stack(mut stack)) => {
                stack.push(entity);
                stack
            },
            Some(Column::Single(id)) => {
                let mut stack: Vec<Entity> = Vec::new();
                stack.push(id);
                stack.push(entity);
                stack
            },
            None => {
                return Ok(());
            },
        };
        proof {
            lemma_push_fresh(old(self)@[index - 1], entity);
            assert(newstack@ =~= old(self)@[index - 1].push(entity));
        }
        self.columns.insert(index - 1, Column::Stack(newstack));
        assert(self@ =~= old(self)@.remove(index as int).update(
            index - 1,
            old(self)@[index - 1].push(entity),
        ));
        Ok(())
    }

    /// Takes `entity` out of its stack and makes it a column of its own right
    /// before what is left of the stack. Nothing changes where `entity` is a
    /// single column already.
    pub fn unstack(&mut self, entity: Entity) -> (r: Result<(), Error>)
        requires
            old(self).wf(),
        ensures
            final(self).wf(),
            final(self).spec_id() == old(self).spec_id(),
            match r {
                Ok(_) => holds(old(self)@, entity) && final(self)@ == unstacked(
                    old(self)@,
                    entity,
                ),
                Err(err) => err == Error::NotFound && !holds(old(self)@, entity) && final(self)@
                    == old(self)@,
            },
    {
        proof {
            self.lemma_wf();
            lemma_unstacked(self@, entity);
        }
        let index = match self.index_of(entity) {
            Ok(index) => index,
            Err(err) => {
                return Err(err);
            },
        };
        assert(self@[index as int] == self.columns@[index as int].windows());
        assert(self.columns@[index as int].wf());
        if let Column::Single(_) = self.columns[index] {
            return Ok(());
        }
        let column = self.columns.remove(index);
        let rest = match column {
            Some(Column::Stack(stack)) => {
                let rest = vec_without(&stack, entity);
                proof {
                    lemma_without(stack@, entity);
                }
                if rest.len() == 1 {
                    let only = rest[0];
                    assert(rest@ =~= seq![only]);
                    Column::Single(only)
                } else {
                    Column::Stack(rest)
                }
            },
            Some(Column::Single(id)) => Column::Single(id),
            None => {
                return Ok(());
            },
        };
        self.columns.insert(index, rest);
        self.columns.insert(index, Column::Single(entity));
        assert(self@ =~= old(self)@.update(
            index as int,
            without(old(self)@[index as int], entity),
        ).insert(index as int, seq![entity]));
        Ok(())
    }

    /// Every window of the strip in column order, each stack from the top.
    pub fn all_windows(&self) -> (r: Vec<Entity>)
        ensures
            r@ == flattened(self@),
    {
        let mut out: Vec<Entity> = Vec::new();
        let mut i: usize = 0;
        while i < self.columns.len()
            invariant
                i <= self.columns.len(),
                out@ == flattened(self@.subrange(0, i as int)),
            decreases self.columns.len() - i,
        {
            let ghost before = out@;
            assert(self@[i as int] == self.columns@[i as int].windows());
            match &self.columns[i] {
                Column::Single(entity) => {
                    out.push(*entity);
                    assert(out@ =~= before + seq![*entity]);
                },
                Column::Stack(ids) => {
                    let mut k: usize = 0;
                    while k < ids.len()
                        invariant
                            k <= ids.len(),
                            out@ == before + ids@.subrange(0, k as int),
                        decreases ids.len() - k,
                    {
                        out.push(ids[k]);
                        assert(out@ =~= before + ids@.subrange(0, k + 1));
                        k += 1;
                    }
                    assert(ids@.subrange(0, ids.len() as int) =~= ids@);
                },
            }
            proof {
                let next = self@.subrange(0, i + 1);
                assert(next.drop_last() =~= self@.subrange(0, i as int));
                assert(next.last() == self@[i as int]);
            }
            i += 1;
        }
        assert(self@.subrange(0, self@.len() as int) =~= self@);
        out
    }

    /// The top window of every column, from left to right.
    pub fn all_columns(&self) -> (r: Vec<Entity>)
        ensures
            r@ == tops(self@),
    {
        let mut out: Vec<Entity> = Vec::new();
        let mut i: usize = 0;
        while i < self.columns.len()
            invariant
                i <= self.columns.len(),
                out@ == tops(self@.subrange(0, i as int)),
            decreases self.columns.len() - i,
        {
            assert(self@[i as int] == self.columns@[i as int].windows());
            let top = self.columns[i].top();
            if let Some(entity) = top {
                out.push(entity);
            }
            proof {
                let next = self@.subrange(0, i + 1);
                assert(next.drop_last() =~= self@.subrange(0, i as int));
                assert(next.last() == self@[i as int]);
            }
            i += 1;
        }
        assert(self@.subrange(0, self@.len() as int) =~= self@);
        out
    }
}

/// No window of a stack is laid out lower than this.
pub const MIN_WINDOW_HEIGHT: i32 = 200;

/// So many pixels of every column stay inside the viewport.
pub const WINDOW_HIDDEN_THRESHOLD: i32 = 10;

/// Every known frame has ordered corners and an extent that fits an `i32`.
pub open spec fn frames_valid(frames: Map<Entity, IRect>) -> bool {
    forall|e: Entity| frames.contains_key(e) ==> (#[trigger] frames[e]).valid()
}

/// The frame of the top window of the column is known.
pub open spec fn framed(col: Seq<Entity>, frames: Map<Entity, IRect>) -> bool {
    col.len() > 0 && frames.contains_key(col[0])
}

/// The width a column takes in the strip: that of its top window, or
/// nothing where that window's frame is not known.
pub open spec fn column_width(col: Seq<Entity>, frames: Map<Entity, IRect>) -> int {
    if framed(col, frames) {
        frames[col[0]].spec_width()
    } else {
        0
    }
}

/// The summed width of the first `k` columns.
pub open spec fn extent(cols: Seq<Seq<Entity>>, frames: Map<Entity, IRect>, k: int) -> int
    decreases k,
{
    if k <= 0 {
        0
    } else {
        extent(cols, frames, k - 1) + column_width(cols[k - 1], frames)
    }
}

/// For each of the first `k` columns whose top frame is known, its index
/// and the summed width of the columns before it.
pub open spec fn positions(cols: Seq<Seq<Entity>>, frames: Map<Entity, IRect>, k: int) -> Seq<
    (int, int),
>
    decreases k,
{
    if k <= 0 {
        Seq::empty()
    } else if framed(cols[k - 1], frames) {
        positions(cols, frames, k - 1).push((k - 1, extent(cols, frames, k - 1)))
    } else {
        positions(cols, frames, k - 1)
    }
}

/// The pairs of a list of placements as mathematical integers.
pub open spec fn placements(v: Seq<(usize, i32)>) -> Seq<(int, int)> {
    Seq::new(v.len(), |i: int| (v[i].0 as int, v[i].1 as int))
}

/// The current heights of the first `k` windows of a column, leaving out
/// the windows whose frame is not known.
pub open spec fn known_heights(col: Seq<Entity>, frames: Map<Entity, IRect>, k: int) -> Seq<i32>
    decreases k,
{
    if k <= 0 {
        Seq::empty()
    } else if frames.contains_key(col[k - 1]) {
        known_heights(col, frames, k - 1).push(frames[col[k - 1]].spec_height() as i32)
    } else {
        known_heights(col, frames, k - 1)
    }
}

/// The vertical offset of the `k`-th window of a column: the heights given
/// to the windows above it whose frame is known.
pub open spec fn offset_y(col: Seq<Entity>, heights: Seq<int>, frames: Map<Entity, IRect>, k: int)
    -> int
    decreases k,
{
    if k <= 0 {
        0
    } else if frames.contains_key(col[k - 1]) {
        offset_y(col, heights, frames, k - 1) + heights[k - 1]
    } else {
        offset_y(col, heights, frames, k - 1)
    }
}

/// The frames of the first `k` windows of a column that starts at `x` and
/// is `width` wide, where window `i` is `heights[i]` high.
pub open spec fn column_frames(
    col: Seq<Entity>,
    heights: Seq<int>,
    frames: Map<Entity, IRect>,
    x: int,
    width: int,
    k: int,
) -> Seq<(Entity, IRect)>
    decreases k,
{
    if k <= 0 {
        Seq::empty()
    } else if frames.contains_key(col[k - 1]) {
        let y = offset_y(col, heights, frames, k - 1);
        column_frames(col, heights, frames, x, width, k - 1).push(
            (
                col[k - 1],
                IRect {
                    min: IVec2 { x: x as i32, y: y as i32 },
                    max: IVec2 { x: (x + width) as i32, y: (y + heights[k - 1]) as i32 },
                },
            ),
        )
    } else {
        column_frames(col, heights, frames, x, width, k - 1)
    }
}

/// Where a column whose place in the strip is `position` starts in a
/// viewport scrolled by `offset`: the difference of the two, kept in the
/// range that leaves a sliver of the column inside the viewport.
pub open spec fn column_x(position: int, offset: int, viewport: IRect, width: int) -> int {
    spec_clamp(
        position - offset,
        viewport.min.x + WINDOW_HIDDEN_THRESHOLD - width,
        viewport.spec_width() - WINDOW_HIDDEN_THRESHOLD,
    )
}

/// The frames of one column in the viewport. A column whose stack finds no
/// heights in the viewport is left out.
pub open spec fn column_layout(
    col: Seq<Entity>,
    frames: Map<Entity, IRect>,
    position: int,
    offset: int,
    viewport: IRect,
) -> Seq<(Entity, IRect)> {
    match binpack(
        known_heights(col, frames, col.len() as int),
        MIN_WINDOW_HEIGHT as int,
        viewport.spec_height(),
    ) {
        None => Seq::empty(),
        Some(heights) => {
            let width = column_width(col, frames);
            column_frames(
                col,
                heights,
                frames,
                column_x(position, offset, viewport, width),
                width,
                spec_min_len(col.len() as int, heights.len() as int),
            )
        },
    }
}

/// The frames of all windows in the first `k` columns, relative to the
/// viewport's origin, for a strip scrolled by `offset`.
pub open spec fn layout(
    cols: Seq<Seq<Entity>>,
    frames: Map<Entity, IRect>,
    offset: int,
    viewport: IRect,
    k: int,
) -> Seq<(Entity, IRect)>
    decreases k,
{
    if k <= 0 {
        Seq::empty()
    } else if framed(cols[k - 1], frames) {
        layout(cols, frames, offset, viewport, k - 1) + column_layout(
            cols[k - 1],
            frames,
            extent(cols, frames, k - 1),
            offset,
            viewport,
        )
    } else {
        layout(cols, frames, offset, viewport, k - 1)
    }
}

/// The summed width of the strip fits an `i32`.
pub open spec fn extent_in_range(cols: Seq<Seq<Entity>>, frames: Map<Entity, IRect>) -> bool {
    extent(cols, frames, cols.len() as int) <= i32::MAX
}

/// The arithmetic of the layout stays within `i32`: the scrolled position
/// of every column, the bounds its start is kept within, and its right
/// edge at the upper bound.
pub open spec fn layout_in_range(
    cols: Seq<Seq<Entity>>,
    frames: Map<Entity, IRect>,
    offset: int,
    viewport: IRect,
) -> bool {
    &&& extent_in_range(cols, frames)
    &&& fits_i32(viewport.spec_width())
    &&& fits_i32(viewport.spec_height())
    &&& fits_i32(viewport.min.x + WINDOW_HIDDEN_THRESHOLD)
    &&& fits_i32(viewport.spec_width() - WINDOW_HIDDEN_THRESHOLD)
    &&& forall|k: int|
        0 <= k < cols.len() && framed(#[trigger] cols[k], frames) ==> {
            let width = column_width(cols[k], frames);
            &&& fits_i32(extent(cols, frames, k) - offset)
            &&& fits_i32(viewport.min.x + WINDOW_HIDDEN_THRESHOLD - width)
            &&& fits_i32(viewport.spec_width() - WINDOW_HIDDEN_THRESHOLD + width)
        }
}

/// Widths are not negative, so the summed width grows with every column.
pub proof fn lemma_extent_monotonic(
    cols: Seq<Seq<Entity>>,
    frames: Map<Entity, IRect>,
    i: int,
    k: int,
)
    requires
        frames_valid(frames),
        0 <= i <= k,
    ensures
        0 <= extent(cols, frames, i) <= extent(cols, frames, k),
    decreases k,
{
    if k > 0 {
        if framed(cols[k - 1], frames) {
            assert(frames[cols[k - 1][0]].valid());
        }
        if i < k {
            lemma_extent_monotonic(cols, frames, i, k - 1);
        } else {
            lemma_extent_monotonic(cols, frames, i - 1, k - 1);
        }
    }
}

/// The frame of `entity`, where it is known.
pub fn frame_of(frames: &HashMap<Entity, IRect>, entity: Entity) -> (r: Option<IRect>)
    ensures
        r == (if frames@.contains_key(entity) {
            Some(frames@[entity])
        } else {
            None
        }),
{
    broadcast use vstd::std_specs::hash::group_hash_axioms;

    match frames.get(&entity) {
        Some(frame) => Some(*frame),
        None => None,
    }
}

impl LayoutStrip {
    /// Where each column starts in the strip: for every column whose top
    /// window has a known frame, the column's index and the summed width
    /// of the columns to its left. A column without such a frame takes no
    /// room.
    pub fn absolute_positions(&self, frames: &HashMap<Entity, IRect>) -> (r: Vec<(usize, i32)>)
        requires
            frames_valid(frames@),
            extent_in_range(self@, frames@),
        ensures
            placements(r@) == positions(self@, frames@, self@.len() as int),
    {
        let mut out: Vec<(usize, i32)> = Vec::new();
        let mut left_edge: i32 = 0;
        let mut k: usize = 0;
        while k < self.columns.len()
            invariant
                k <= self.columns.len(),
                self@.len() == self.columns.len(),
                frames_valid(frames@),
                extent_in_range(self@, frames@),
                left_edge == extent(self@, frames@, k as int),
                placements(out@) == positions(self@, frames@, k as int),
            decreases self.columns.len() - k,
        {
            assert(self@[k as int] == self.columns@[k as int].windows());
            let ghost before = placements(out@);
            if let Some(entity) = self.columns[k].top() {
                if let Some(frame) = frame_of(frames, entity) {
                    proof {
                        assert(frames@[entity].valid());
                        lemma_extent_monotonic(self@, frames@, k + 1, self@.len() as int);
                    }
                    out.push((k, left_edge));
                    assert(placements(out@) =~= before.push((k as int, left_edge as int)));
                    left_edge = left_edge + frame.width();
                }
            }
            k += 1;
        }
        out
    }
}

impl Column {
    pub open spec fn spec_count(&self) -> usize {
        self.windows().len() as usize
    }

    /// The number of windows in the column.
    #[verifier::when_used_as_spec(spec_count)]
    pub fn count(&self) -> (n: usize)
        ensures
            n == self.windows().len(),
    {
        match self {
            Column::Single(_) => 1,
            Column::Stack(stack) => stack.len(),
        }
    }

    /// The window at height `index`.
    pub fn window_at(&self, index: usize) -> (e: Entity)
        requires
            index < self.windows().len(),
        ensures
            e == self.windows()[index as int],
    {
        match self {
            Column::Single(id) => *id,
            Column::Stack(stack) => stack[index],
        }
    }
}

/// The heights given to the windows above the `k`-th never exceed the sum
/// of the heights given to all.
proof fn lemma_offset_y(col: Seq<Entity>, heights: Seq<int>, frames: Map<Entity, IRect>, k: int)
    requires
        0 <= k <= heights.len(),
        k <= col.len(),
        forall|i: int| 0 <= i < heights.len() ==> heights[i] >= 0,
    ensures
        0 <= offset_y(col, heights, frames, k) <= total(heights.take(k)),
    decreases k,
{
    if k > 0 {
        lemma_offset_y(col, heights, frames, k - 1);
        lemma_total_prefix(heights, k - 1);
    } else {
        lemma_total_prefix(heights, 0);
    }
}

fn known_heights_of(column: &Column, frames: &HashMap<Entity, IRect>) -> (r: Vec<i32>)
    requires
        frames_valid(frames@),
    ensures
        r@ == known_heights(column.windows(), frames@, column.windows().len() as int),
        heights_valid(r@),
{
    let mut heights: Vec<i32> = Vec::new();
    let n = column.count();
    let mut i: usize = 0;
    while i < n
        invariant
            i <= n,
            n == column.windows().len(),
            frames_valid(frames@),
            heights@ == known_heights(column.windows(), frames@, i as int),
            heights_valid(heights@),
        decreases n - i,
    {
        let entity = column.window_at(i);
        if let Some(frame) = frame_of(frames, entity) {
            assert(frames@[entity].valid());
            heights.push(frame.height());
        }
        i += 1;
    }
    heights
}

impl LayoutStrip {
    /// The frame of every window of the strip, relative to the origin of
    /// `viewport`, where the strip is scrolled by `offset` pixels.
    ///
    /// Columns follow each other from left to right, each as wide as its top
    /// window. A column's start is kept in the range that leaves at least
    /// `WINDOW_HIDDEN_THRESHOLD` pixels of it inside the viewport. The
    /// windows of a stack share the height of the viewport; a single window
    /// takes it all.
    pub fn calculate_layout(
        &self,
        offset: i32,
        viewport: &IRect,
        frames: &HashMap<Entity, IRect>,
    ) -> (r: Vec<(Entity, IRect)>)
        requires
            frames_valid(frames@),
            layout_in_range(self@, frames@, offset as int, *viewport),
        ensures
            r@ == layout(self@, frames@, offset as int, *viewport, self@.len() as int),
    {
        let mut out: Vec<(Entity, IRect)> = Vec::new();
        let mut left_edge: i32 = 0;
        let mut k: usize = 0;
        while k < self.columns.len()
            invariant
                k <= self.columns.len(),
                self@.len() == self.columns.len(),
                frames_valid(frames@),
                layout_in_range(self@, frames@, offset as int, *viewport),
                left_edge == extent(self@, frames@, k as int),
                out@ == layout(self@, frames@, offset as int, *viewport, k as int),
            decreases self.columns.len() - k,
        {
            assert(self@[k as int] == self.columns@[k as int].windows());
            let column = &self.columns[k];
            if let Some(top) = column.top() {
                if let Some(top_frame) = frame_of(frames, top) {
                    proof {
                        assert(frames@[top].valid());
                        lemma_extent_monotonic(self@, frames@, k + 1, self@.len() as int);
                    }
                    let width = top_frame.width();
                    let placed = column_frames_of(
                        column,
                        frames,
                        left_edge,
                        offset,
                        viewport,
                        width,
                    );
                    let ghost before = out@;
                    let mut i: usize = 0;
                    while i < placed.len()
                        invariant
                            i <= placed.len(),
                            out@ == before + placed@.take(i as int),
                        decreases placed.len() - i,
                    {
                        out.push(placed[i]);
                        assert(out@ =~= before + placed@.take(i + 1));
                        i += 1;
                    }
                    assert(placed@.take(placed.len() as int) =~= placed@);
                    left_edge = left_edge + width;
                }
            }
            k += 1;
        }
        out
    }
}

fn column_frames_of(
    column: &Column,
    frames: &HashMap<Entity, IRect>,
    position: i32,
    offset: i32,
    viewport: &IRect,
    width: i32,
) -> (r: Vec<(Entity, IRect)>)
    requires
        frames_valid(frames@),
        framed(column.windows(), frames@),
        width == column_width(column.windows(), frames@),
        fits_i32(viewport.spec_width()),
        fits_i32(viewport.spec_height()),
        fits_i32(viewport.min.x + WINDOW_HIDDEN_THRESHOLD),
        fits_i32(viewport.spec_width() - WINDOW_HIDDEN_THRESHOLD),
        fits_i32(position - offset),
        fits_i32(viewport.min.x + WINDOW_HIDDEN_THRESHOLD - width),
        fits_i32(viewport.spec_width() - WINDOW_HIDDEN_THRESHOLD + width),
    ensures
        r@ == column_layout(column.windows(), frames@, position as int, offset as int, *viewport),
{
    let ghost col = column.windows();
    let current_heights = known_heights_of(column, frames);
    let found = binpack_heights(current_heights.as_slice(), MIN_WINDOW_HEIGHT, viewport.height());
    let mut out: Vec<(Entity, IRect)> = Vec::new();
    let heights = match found {
        Some(heights) => heights,
        None => {
            return out;
        },
    };
    let ghost hs = ints(heights@);
    proof {
        lemma_binpack_nonneg(current_heights@, MIN_WINDOW_HEIGHT, viewport.spec_height() as i32);
    }
    let x = clamp_i32(
        position - offset,
        viewport.min.x + WINDOW_HIDDEN_THRESHOLD - width,
        viewport.width() - WINDOW_HIDDEN_THRESHOLD,
    );
    let n = if column.count() < heights.len() {
        column.count()
    } else {
        heights.len()
    };
    let mut prev_y: i32 = 0;
    let mut i: usize = 0;
    while i < n
        invariant
            i <= n,
            n == spec_min_len(col.len() as int, hs.len() as int),
            col == column.windows(),
            hs == ints(heights@),
            forall|j: int| 0 <= j < hs.len() ==> hs[j] >= 0,
            hs.len() == 0 || total(hs) <= viewport.spec_height(),
            fits_i32(viewport.spec_height()),
            fits_i32(x + width),
            prev_y == offset_y(col, hs, frames@, i as int),
            out@ == column_frames(col, hs, frames@, x as int, width as int, i as int),
        decreases n - i,
    {
        let entity = column.window_at(i);
        let height = heights[i];
        proof {
            lemma_offset_y(col, hs, frames@, i as int);
            lemma_total_prefix(hs, i as int);
            lemma_total_prefix(hs, i + 1);
            assert(hs[i as int] == height);
        }
        if frame_of(frames, entity).is_some() {
            let frame = IRect {
                min: IVec2 { x, y: prev_y },
                max: IVec2 { x: x + width, y: prev_y + height },
            };
            out.push((entity, frame));
            prev_y = prev_y + height;
        }
        i += 1;
    }
    out
}

proof fn lemma_first_index_unique(s: Seq<Entity>, k: int)
    requires
        s.no_duplicates(),
        0 <= k < s.len(),
    ensures
        first_index(s, s[k]) == k,
{
    lemma_first_index(s, s[k]);
    assert(s.contains(s[k]));
}

/// Stacking a single window that is not in the leftmost column makes the
/// strip one column shorter and puts the window at the bottom of the
/// column that was to its left, together with its former left neighbour.
pub proof fn lemma_stack_merges(cols: Seq<Seq<Entity>>, e: Entity)
    requires
        columns_wf(cols),
        holds(cols, e),
        column_of(cols, e) > 0,
        cols[column_of(cols, e)].len() == 1,
    ensures
        ({
            let i = column_of(cols, e);
            let after = stacked(cols, e);
            &&& after.len() == cols.len() - 1
            &&& column_of(after, e) == i - 1
            &&& after[i - 1] == cols[i - 1].push(e)
            &&& after[i - 1].len() >= 2
            &&& neighbour(cols, e, -1).is_some()
            &&& after[i - 1].contains(neighbour(cols, e, -1).unwrap())
            &&& columns_wf(after)
        }),
{
    let i = column_of(cols, e);
    let after = stacked(cols, e);
    lemma_column_of(cols, e);
    assert(cols[i - 1].len() >= 1);
    assert(after[i - 1] == cols[i - 1].push(e));
    assert(after[i - 1][cols[i - 1].len() as int] == e);
    assert forall|j: int| 0 <= j < i - 1 implies !(#[trigger] after[j]).contains(e) by {
        assert(after[j] == cols[j]);
    }
    assert(is_column_of(after, e, i - 1));
    lemma_column_of(after, e);
    lemma_first_index(cols[i], e);
    let l = neighbour(cols, e, -1).unwrap();
    let p = first_index(cols[i], e);
    let q = if p < cols[i - 1].len() {
        p
    } else {
        cols[i - 1].len() - 1
    };
    assert(l == cols[i - 1][q]);
    assert(after[i - 1][q] == l);
    lemma_push_fresh(cols[i - 1], e);
    assert forall|j: int| 0 <= j < after.len() implies (#[trigger] after[j]).len() >= 1
        && after[j].no_duplicates() by {
        if j < i - 1 {
            assert(after[j] == cols[j]);
        } else if j > i - 1 {
            assert(after[j] == cols[j + 1]);
        }
    }
}

/// After a single window that is not in the leftmost column was stacked,
/// the window and its former left neighbour are found in one and the same
/// column, the one that was to the left of the window, and that column is
/// a stack; this holds of every strip in which no window is in two
/// columns, as in every valid strip.
pub proof fn lemma_stack_joins(cols: Seq<Seq<Entity>>, e: Entity)
    requires
        columns_wf(cols),
        columns_disjoint(cols),
        holds(cols, e),
        column_of(cols, e) > 0,
        cols[column_of(cols, e)].len() == 1,
    ensures
        ({
            let i = column_of(cols, e);
            let after = stacked(cols, e);
            let left = neighbour(cols, e, -1);
            &&& left.is_some()
            &&& after.len() == cols.len() - 1
            &&& column_of(after, e) == i - 1
            &&& column_of(after, left.unwrap()) == i - 1
            &&& after[i - 1].len() >= 2
            &&& columns_wf(after)
            &&& columns_disjoint(after)
        }),
{
    let i = column_of(cols, e);
    let after = stacked(cols, e);
    lemma_stack_merges(cols, e);
    lemma_stacked(cols, e);
    lemma_column_of(cols, e);
    let l = neighbour(cols, e, -1).unwrap();
    lemma_first_index(cols[i], e);
    assert(cols[i - 1].contains(l));
    assert forall|j: int| 0 <= j < i - 1 implies !(#[trigger] after[j]).contains(l) by {
        assert(after[j] == cols[j]);
        if cols[j].contains(l) {
            assert(!cols[i - 1].contains(l));
        }
    }
    assert(is_column_of(after, l, i - 1));
    lemma_column_of(after, l);
}

/// Unstacking a window of a stack makes the strip one column longer and the
/// window a column of its own, right before what is left of the stack.
/// Unstacking a single window changes nothing.
pub proof fn lemma_unstack_splits(cols: Seq<Seq<Entity>>, e: Entity)
    requires
        columns_wf(cols),
        holds(cols, e),
    ensures
        ({
            let i = column_of(cols, e);
            let after = unstacked(cols, e);
            &&& cols[i].len() == 1 ==> after == cols
            &&& cols[i].len() >= 2 ==> {
                &&& after.len() == cols.len() + 1
                &&& column_of(after, e) == i
                &&& after[i] == seq![e]
                &&& after[i + 1] == without(cols[i], e)
                &&& after[i + 1].len() == cols[i].len() - 1
            }
            &&& holds(after, e)
            &&& after[column_of(after, e)].len() == 1
            &&& columns_wf(after)
        }),
{
    let i = column_of(cols, e);
    let after = unstacked(cols, e);
    lemma_column_of(cols, e);
    if cols[i].len() >= 2 {
        lemma_without(cols[i], e);
        assert(after[i] == seq![e]);
        assert(after[i][0] == e);
        assert forall|j: int| 0 <= j < i implies !(#[trigger] after[j]).contains(e) by {
            assert(after[j] == cols[j]);
        }
        assert(is_column_of(after, e, i));
        lemma_column_of(after, e);
        assert forall|j: int| 0 <= j < after.len() implies (#[trigger] after[j]).len() >= 1
            && after[j].no_duplicates() by {
            if j < i {
                assert(after[j] == cols[j]);
            } else if j > i + 1 {
                assert(after[j] == cols[j - 1]);
            }
        }
    } else {
        assert(cols[i].len() >= 1);
    }
}

/// Going to the left neighbour and from there to its right neighbour leads
/// back into the column one started from: to the same window where the left
/// column is tall enough to have a window at that height, and else to the
/// window at the height of the left column's bottom.
pub proof fn lemma_neighbours_left_right(cols: Seq<Seq<Entity>>, e: Entity)
    requires
        columns_wf(cols),
        columns_disjoint(cols),
        holds(cols, e),
        column_of(cols, e) > 0,
    ensures
        ({
            let i = column_of(cols, e);
            let height = first_index(cols[i], e);
            let left = neighbour(cols, e, -1);
            &&& left.is_some()
            &&& column_of(cols, left.unwrap()) == i - 1
            &&& neighbour(cols, left.unwrap(), 1).is_some()
            &&& cols[i].contains(neighbour(cols, left.unwrap(), 1).unwrap())
            &&& height < cols[i - 1].len() ==> neighbour(cols, left.unwrap(), 1) == Some(e)
            &&& height >= cols[i - 1].len() ==> neighbour(cols, left.unwrap(), 1) == Some(
                cols[i][cols[i - 1].len() - 1],
            )
        }),
{
    lemma_column_of(cols, e);
    lemma_round_trip(cols, e, -1);
}

/// Going to the right neighbour and from there to its left neighbour leads
/// back into the column one started from, in the same way.
pub proof fn lemma_neighbours_right_left(cols: Seq<Seq<Entity>>, e: Entity)
    requires
        columns_wf(cols),
        columns_disjoint(cols),
        holds(cols, e),
        column_of(cols, e) + 1 < cols.len(),
    ensures
        ({
            let i = column_of(cols, e);
            let height = first_index(cols[i], e);
            let right = neighbour(cols, e, 1);
            &&& right.is_some()
            &&& column_of(cols, right.unwrap()) == i + 1
            &&& neighbour(cols, right.unwrap(), -1).is_some()
            &&& cols[i].contains(neighbour(cols, right.unwrap(), -1).unwrap())
            &&& height < cols[i + 1].len() ==> neighbour(cols, right.unwrap(), -1) == Some(e)
            &&& height >= cols[i + 1].len() ==> neighbour(cols, right.unwrap(), -1) == Some(
                cols[i][cols[i + 1].len() - 1],
            )
        }),
{
    lemma_column_of(cols, e);
    lemma_round_trip(cols, e, 1);
}

proof fn lemma_round_trip(cols: Seq<Seq<Entity>>, e: Entity, step: int)
    requires
        columns_wf(cols),
        columns_disjoint(cols),
        holds(cols, e),
        step == 1 || step == -1,
        0 <= column_of(cols, e) + step < cols.len(),
    ensures
        ({
            let i = column_of(cols, e);
            let height = first_index(cols[i], e);
            let there = neighbour(cols, e, step);
            &&& there.is_some()
            &&& column_of(cols, there.unwrap()) == i + step
            &&& neighbour(cols, there.unwrap(), -step).is_some()
            &&& cols[i].contains(neighbour(cols, there.unwrap(), -step).unwrap())
            &&& height < cols[i + step].len() ==> neighbour(cols, there.unwrap(), -step) == Some(
                e,
            )
            &&& height >= cols[i + step].len() ==> neighbour(cols, there.unwrap(), -step)
                == Some(cols[i][cols[i + step].len() - 1])
        }),
{
    let i = column_of(cols, e);
    lemma_column_of(cols, e);
    lemma_first_index(cols[i], e);
    let p = first_index(cols[i], e);
    let other = cols[i + step];
    assert(other.len() >= 1);
    let q = if p < other.len() {
        p
    } else {
        other.len() - 1
    };
    let l = other[q];
    assert(neighbour(cols, e, step) == Some(l));
    assert(other.contains(l));
    assert forall|j: int| 0 <= j < i + step implies !(#[trigger] cols[j]).contains(l) by {
        if cols[j].contains(l) {
            assert(!cols[i + step].contains(l));
        }
    }
    assert(is_column_of(cols, l, i + step));
    lemma_column_of(cols, l);
    lemma_first_index_unique(other, q);
    assert(cols[i].len() >= 1);
    let back = at_or_last_of(cols[i], q);
    assert(neighbour(cols, l, -step) == Some(back));
    if p < other.len() {
        assert(back == cols[i][p]);
    } else {
        assert(q < p);
        assert(back == cols[i][q]);
    }
}

/// No column is held back at an edge of the viewport: every column starts
/// where the scroll offset puts it.
pub open spec fn unclamped(
    cols: Seq<Seq<Entity>>,
    frames: Map<Entity, IRect>,
    offset: int,
    viewport: IRect,
) -> bool {
    forall|k: int|
        0 <= k < cols.len() && framed(#[trigger] cols[k], frames) ==> {
            let width = column_width(cols[k], frames);
            viewport.min.x + WINDOW_HIDDEN_THRESHOLD - width <= extent(cols, frames, k) - offset
                <= viewport.spec_width() - WINDOW_HIDDEN_THRESHOLD
        }
}

/// Two frames of one window that differ at most in where they are
/// horizontally, and not at all where `moved` is false.
pub open spec fn same_but_x(a: (Entity, IRect), b: (Entity, IRect), shift: int, moved: bool)
    -> bool {
    &&& a.0 == b.0
    &&& a.1.min.y == b.1.min.y
    &&& a.1.max.y == b.1.max.y
    &&& a.1.spec_width() == b.1.spec_width()
    &&& moved ==> a.1.min.x - b.1.min.x == shift
}

proof fn lemma_column_frames_shift(
    col: Seq<Entity>,
    heights: Seq<int>,
    frames: Map<Entity, IRect>,
    x1: int,
    x2: int,
    width: int,
    k: int,
)
    requires
        fits_i32(x1),
        fits_i32(x2),
        fits_i32(x1 + width),
        fits_i32(x2 + width),
    ensures
        column_frames(col, heights, frames, x1, width, k).len() == column_frames(
            col,
            heights,
            frames,
            x2,
            width,
            k,
        ).len(),
        forall|i: int|
            0 <= i < column_frames(col, heights, frames, x1, width, k).len() ==> same_but_x(
                #[trigger] column_frames(col, heights, frames, x1, width, k)[i],
                column_frames(col, heights, frames, x2, width, k)[i],
                x1 - x2,
                true,
            ),
    decreases k,
{
    if k > 0 {
        lemma_column_frames_shift(col, heights, frames, x1, x2, width, k - 1);
    }
}

/// Scrolling changes no window's size and no window's vertical place: for
/// any two scroll offsets the layout lists the same windows in the same
/// order, each with the same width, top and bottom. Where neither offset
/// has a column held back at an edge of the viewport, every window moves
/// horizontally by exactly the difference of the offsets.
pub proof fn lemma_layout_offset(
    cols: Seq<Seq<Entity>>,
    frames: Map<Entity, IRect>,
    first: int,
    second: int,
    viewport: IRect,
    k: int,
)
    requires
        0 <= k <= cols.len(),
        frames_valid(frames),
        layout_in_range(cols, frames, first, viewport),
        layout_in_range(cols, frames, second, viewport),
    ensures
        layout(cols, frames, first, viewport, k).len() == layout(
            cols,
            frames,
            second,
            viewport,
            k,
        ).len(),
        forall|i: int|
            0 <= i < layout(cols, frames, first, viewport, k).len() ==> same_but_x(
                #[trigger] layout(cols, frames, first, viewport, k)[i],
                layout(cols, frames, second, viewport, k)[i],
                second - first,
                unclamped(cols, frames, first, viewport) && unclamped(
                    cols,
                    frames,
                    second,
                    viewport,
                ),
            ),
    decreases k,
{
    if k > 0 {
        lemma_layout_offset(cols, frames, first, second, viewport, k - 1);
        let col = cols[k - 1];
        if framed(col, frames) {
            let position = extent(cols, frames, k - 1);
            let width = column_width(col, frames);
            let x1 = column_x(position, first, viewport, width);
            let x2 = column_x(position, second, viewport, width);
            let a = layout(cols, frames, first, viewport, k - 1);
            let b = layout(cols, frames, second, viewport, k - 1);
            let ca = column_layout(col, frames, position, first, viewport);
            let cb = column_layout(col, frames, position, second, viewport);
            assert(frames[col[0]].valid());
            match binpack(
                known_heights(col, frames, col.len() as int),
                MIN_WINDOW_HEIGHT as int,
                viewport.spec_height(),
            ) {
                None => {},
                Some(heights) => {
                    lemma_column_frames_shift(
                        col,
                        heights,
                        frames,
                        x1,
                        x2,
                        width,
                        spec_min_len(col.len() as int, heights.len() as int),
                    );
                },
            }
            let moved = unclamped(cols, frames, first, viewport) && unclamped(
                cols,
                frames,
                second,
                viewport,
            );
            assert forall|i: int| 0 <= i < (a + ca).len() implies same_but_x(
                #[trigger] (a + ca)[i],
                (b + cb)[i],
                second - first,
                moved,
            ) by {
                if i >= a.len() {
                    assert((a + ca)[i] == ca[i - a.len()]);
                    assert((b + cb)[i] == cb[i - b.len()]);
                    assert(same_but_x(ca[i - a.len()], cb[i - a.len()], x1 - x2, true));
                } else {
                    assert((a + ca)[i] == a[i]);
                    assert((b + cb)[i] == b[i]);
                }
            }
        }
    }
}

impl LayoutStrip {
    /// Whether the strip can be laid out in `viewport` at `offset` without
    /// leaving the range of `i32`.
    pub fn layout_fits(&self, offset: i32, viewport: &IRect, frames: &HashMap<Entity, IRect>) -> (r:
        bool)
        requires
            frames_valid(frames@),
        ensures
            r == layout_in_range(self@, frames@, offset as int, *viewport),
    {
        let view_width: i64 = viewport.max.x as i64 - viewport.min.x as i64;
        let view_height: i64 = viewport.max.y as i64 - viewport.min.y as i64;
        let low: i64 = viewport.min.x as i64 + WINDOW_HIDDEN_THRESHOLD as i64;
        let high: i64 = view_width - WINDOW_HIDDEN_THRESHOLD as i64;
        if !(in_i32(view_width) && in_i32(view_height) && in_i32(low) && in_i32(high)) {
            return false;
        }
        let mut edge: i64 = 0;
        let mut k: usize = 0;
        while k < self.columns.len()
            invariant
                k <= self.columns.len(),
                self@.len() == self.columns.len(),
                frames_valid(frames@),
                edge == extent(self@, frames@, k as int),
                0 <= edge <= i32::MAX,
                fits_i32(viewport.spec_width()),
                fits_i32(viewport.spec_height()),
                low == viewport.min.x + WINDOW_HIDDEN_THRESHOLD,
                high == viewport.spec_width() - WINDOW_HIDDEN_THRESHOLD,
                fits_i32(low as int),
                fits_i32(high as int),
                forall|j: int|
                    0 <= j < k && framed(#[trigger] self@[j], frames@) ==> {
                        let width = column_width(self@[j], frames@);
                        &&& fits_i32(extent(self@, frames@, j) - offset)
                        &&& fits_i32(viewport.min.x + WINDOW_HIDDEN_THRESHOLD - width)
                        &&& fits_i32(viewport.spec_width() - WINDOW_HIDDEN_THRESHOLD + width)
                    },
            decreases self.columns.len() - k,
        {
            assert(self@[k as int] == self.columns@[k as int].windows());
            if let Some(top) = self.columns[k].top() {
                if let Some(frame) = frame_of(frames, top) {
                    assert(frames@[top].valid());
                    let width: i64 = frame.max.x as i64 - frame.min.x as i64;
                    let here = in_i32(edge - offset as i64) && in_i32(low - width) && in_i32(
                        high + width,
                    );
                    if !here || edge + width > 0x7fff_ffff {
                        proof {
                            if here {
                                lemma_extent_monotonic(
                                    self@,
                                    frames@,
                                    k + 1,
                                    self@.len() as int,
                                );
                            }
                        }
                        return false;
                    }
                    edge = edge + width;
                }
            }
            k += 1;
        }
        true
    }
}

impl LayoutStrip {
    /// Whether the summed width of the strip fits an `i32`.
    pub fn extent_fits(&self, frames: &HashMap<Entity, IRect>) -> (r: bool)
        requires
            frames_valid(frames@),
        ensures
            r == extent_in_range(self@, frames@),
    {
        let mut edge: i64 = 0;
        let mut k: usize = 0;
        while k < self.columns.len()
            invariant
                k <= self.columns.len(),
                self@.len() == self.columns.len(),
                frames_valid(frames@),
                edge == extent(self@, frames@, k as int),
                0 <= edge <= i32::MAX,
            decreases self.columns.len() - k,
        {
            assert(self@[k as int] == self.columns@[k as int].windows());
            if let Some(top) = self.columns[k].top() {
                if let Some(frame) = frame_of(frames, top) {
                    assert(frames@[top].valid());
                    let width: i64 = frame.max.x as i64 - frame.min.x as i64;
                    if edge + width > 0x7fff_ffff {
                        proof {
                            lemma_extent_monotonic(self@, frames@, k + 1, self@.len() as int);
                        }
                        return false;
                    }
                    edge = edge + width;
                }
            }
            k += 1;
        }
        true
    }
}

/// The columns with the column at `from` moved to `to`, the others
/// keeping their order.
pub open spec fn moved_column(cols: Seq<Seq<Entity>>, from: int, to: int) -> Seq<Seq<Entity>> {
    cols.remove(from).insert(to, cols[from])
}

impl LayoutStrip {
    /// Moves the column at `from` to `to` by exchanging it with its
    /// neighbour again and again, so that the other columns keep their
    /// order.
    pub fn move_column(&mut self, from: usize, to: usize)
        requires
            old(self).wf(),
            from < old(self)@.len(),
            to < old(self)@.len(),
        ensures
            final(self).wf(),
            final(self).spec_id() == old(self).spec_id(),
            final(self)@ == moved_column(old(self)@, from as int, to as int),
    {
        let mut at: usize = from;
        assert(self@ =~= moved_column(old(self)@, from as int, at as int));
        while at != to
            invariant
                self.wf(),
                self.spec_id() == old(self).spec_id(),
                from < old(self)@.len(),
                to < old(self)@.len(),
                at < old(self)@.len(),
                from <= to ==> from <= at <= to,
                from > to ==> to <= at <= from,
                self@ == moved_column(old(self)@, from as int, at as int),
            decreases
                    (if at < to {
                        to - at
                    } else {
                        at - to
                    }),
        {
            if at < to {
                self.swap(at, at + 1);
                assert(self@ =~= moved_column(old(self)@, from as int, at + 1));
                at += 1;
            } else {
                self.swap(at - 1, at);
                assert(self@ =~= moved_column(old(self)@, from as int, at - 1));
                at -= 1;
            }
        }
    }
}

/// The last of the first `k` columns whose top window is `e` and has a
/// known frame, or -1 where there is none.
pub open spec fn last_top_column(
    cols: Seq<Seq<Entity>>,
    frames: Map<Entity, IRect>,
    e: Entity,
    k: int,
) -> int
    decreases k,
{
    if k <= 0 {
        -1
    } else if framed(cols[k - 1], frames) && cols[k - 1][0] == e {
        k - 1
    } else {
        last_top_column(cols, frames, e, k - 1)
    }
}

impl LayoutStrip {
    /// Where the column starts in the strip whose top window is `entity`:
    /// the summed width of the columns to its left. Of several such
    /// columns the last counts.
    pub fn top_position(&self, frames: &HashMap<Entity, IRect>, entity: Entity) -> (r: Option<i32>)
        requires
            frames_valid(frames@),
            extent_in_range(self@, frames@),
        ensures
            match r {
                Some(x) => last_top_column(self@, frames@, entity, self@.len() as int) >= 0 && x
                    == extent(
                    self@,
                    frames@,
                    last_top_column(self@, frames@, entity, self@.len() as int),
                ),
                None => last_top_column(self@, frames@, entity, self@.len() as int) < 0,
            },
    {
        let mut found: Option<i32> = None;
        let mut left_edge: i32 = 0;
        let mut k: usize = 0;
        while k < self.columns.len()
            invariant
                k <= self.columns.len(),
                self@.len() == self.columns.len(),
                frames_valid(frames@),
                extent_in_range(self@, frames@),
                left_edge == extent(self@, frames@, k as int),
                match found {
                    Some(x) => last_top_column(self@, frames@, entity, k as int) >= 0 && x
                        == extent(
                        self@,
                        frames@,
                        last_top_column(self@, frames@, entity, k as int),
                    ),
                    None => last_top_column(self@, frames@, entity, k as int) < 0,
                },
            decreases self.columns.len() - k,
        {
            assert(self@[k as int] == self.columns@[k as int].windows());
            if let Some(top) = self.columns[k].top() {
                if let Some(frame) = frame_of(frames, top) {
                    proof {
                        assert(frames@[top].valid());
                        lemma_extent_monotonic(self@, frames@, k + 1, self@.len() as int);
                    }
                    if top == entity {
                        found = Some(left_edge);
                    }
                    left_edge = left_edge + frame.width();
                }
            }
            k += 1;
        }
        found
    }

    /// The summed width of all columns.
    pub fn total_width(&self, frames: &HashMap<Entity, IRect>) -> (r: i32)
        requires
            frames_valid(frames@),
            extent_in_range(self@, frames@),
        ensures
            r == extent(self@, frames@, self@.len() as int),
    {
        let mut left_edge: i32 = 0;
        let mut k: usize = 0;
        while k < self.columns.len()
            invariant
                k <= self.columns.len(),
                self@.len() == self.columns.len(),
                frames_valid(frames@),
                extent_in_range(self@, frames@),
                left_edge == extent(self@, frames@, k as int),
            decreases self.columns.len() - k,
        {
            assert(self@[k as int] == self.columns@[k as int].windows());
            if let Some(top) = self.columns[k].top() {
                if let Some(frame) = frame_of(frames, top) {
                    proof {
                        assert(frames@[top].valid());
                        lemma_extent_monotonic(self@, frames@, k + 1, self@.len() as int);
                    }
                    left_edge = left_edge + frame.width();
                }
            }
            k += 1;
        }
        left_edge
    }
}

/// Every window that `after` holds, `before` holds too.
pub open spec fn holds_no_more(after: Seq<Seq<Entity>>, before: Seq<Seq<Entity>>) -> bool {
    forall|x: Entity| holds(after, x) ==> holds(before, x)
}

/// Every window that `after` holds, `before` holds too, or it is `e`.
pub open spec fn holds_no_more_but(after: Seq<Seq<Entity>>, before: Seq<Seq<Entity>>, e: Entity)
    -> bool {
    forall|x: Entity| holds(after, x) ==> holds(before, x) || x == e
}

proof fn lemma_holds_at(cols: Seq<Seq<Entity>>, i: int, x: Entity)
    requires
        0 <= i < cols.len(),
        cols[i].contains(x),
    ensures
        holds(cols, x),
{
}

/// A window that leaves a strip leaves it altogether, where the strip
/// holds no window twice; the strip holds no window afterwards that it
/// did not hold before, and still none twice.
pub proof fn lemma_removed(cols: Seq<Seq<Entity>>, e: Entity)
    requires
        columns_wf(cols),
        columns_disjoint(cols),
    ensures
        columns_wf(removed(cols, e)),
        columns_disjoint(removed(cols, e)),
        holds_no_more(removed(cols, e), cols),
        !holds(removed(cols, e), e),
{
    let after = removed(cols, e);
    if holds(cols, e) {
        lemma_column_of(cols, e);
        let i = column_of(cols, e);
        lemma_without(cols[i], e);
        lemma_first_index(cols[i], e);
        if cols[i].len() == 1 {
            assert forall|j: int| 0 <= j < after.len() implies (#[trigger] after[j]) == cols[if j
                < i {
                j
            } else {
                j + 1
            }] by {}
            assert forall|x: Entity| holds(after, x) implies holds(cols, x) by {
                let j = choose|j: int| 0 <= j < after.len() && (#[trigger] after[j]).contains(x);
                let from = if j < i {
                    j
                } else {
                    j + 1
                };
                assert(after[j] == cols[from]);
                lemma_holds_at(cols, from, x);
            }
            assert forall|a: int, b: int, x: Entity|
                0 <= a < b < after.len() && #[trigger] after[a].contains(x) implies !#[trigger] after[b].contains(
                x,
            ) by {
                let fa = if a < i {
                    a
                } else {
                    a + 1
                };
                let fb = if b < i {
                    b
                } else {
                    b + 1
                };
                assert(after[a] == cols[fa]);
                assert(after[b] == cols[fb]);
                assert(cols[fa].contains(x));
            }
            if holds(after, e) {
                let j = choose|j: int| 0 <= j < after.len() && (#[trigger] after[j]).contains(e);
                let from = if j < i {
                    j
                } else {
                    j + 1
                };
                assert(after[j] == cols[from]);
                assert(cols[from].contains(e));
                assert(cols[i].contains(e));
                if from < i {
                    assert(!cols[i].contains(e));
                } else {
                    assert(!cols[from].contains(e));
                }
            }
        } else {
            assert forall|x: Entity| holds(after, x) implies holds(cols, x) by {
                let j = choose|j: int| 0 <= j < after.len() && (#[trigger] after[j]).contains(x);
                if j == i {
                    assert(x != e);
                    assert(cols[i].contains(x));
                } else {
                    assert(after[j] == cols[j]);
                }
                lemma_holds_at(cols, j, x);
            }
            assert forall|a: int, b: int, x: Entity|
                0 <= a < b < after.len() && #[trigger] after[a].contains(x) implies !#[trigger] after[b].contains(
                x,
            ) by {
                assert(cols[a].contains(x)) by {
                    if a == i {
                        assert(x != e);
                    } else {
                        assert(after[a] == cols[a]);
                    }
                }
                if after[b].contains(x) {
                    assert(cols[b].contains(x)) by {
                        if b == i {
                            assert(x != e);
                        } else {
                            assert(after[b] == cols[b]);
                        }
                    }
                }
            }
            if holds(after, e) {
                let j = choose|j: int| 0 <= j < after.len() && (#[trigger] after[j]).contains(e);
                if j != i {
                    assert(after[j] == cols[j]);
                    assert(cols[i].contains(e));
                    if j < i {
                        assert(!cols[i].contains(e));
                    } else {
                        assert(!cols[j].contains(e));
                    }
                }
            }
            assert forall|j: int| 0 <= j < after.len() implies (#[trigger] after[j]).len() >= 1
                && after[j].no_duplicates() by {
                if j != i {
                    assert(after[j] == cols[j]);
                }
            }
        }
        if cols[i].len() == 1 {
            assert forall|j: int| 0 <= j < after.len() implies (#[trigger] after[j]).len() >= 1
                && after[j].no_duplicates() by {
                let from = if j < i {
                    j
                } else {
                    j + 1
                };
                assert(after[j] == cols[from]);
            }
        }
    }
}

/// A window that enters a strip as a column of its own, wherever, is the
/// only window that the strip holds afterwards and did not hold before;
/// and the strip holds no window twice if it did not before and did not
/// hold that window.
pub proof fn lemma_entered(cols: Seq<Seq<Entity>>, at: int, e: Entity)
    requires
        0 <= at <= cols.len(),
        columns_wf(cols),
        columns_disjoint(cols),
        !holds(cols, e),
    ensures
        columns_wf(cols.insert(at, seq![e])),
        columns_disjoint(cols.insert(at, seq![e])),
        holds_no_more_but(cols.insert(at, seq![e]), cols, e),
{
    let after = cols.insert(at, seq![e]);
    assert forall|j: int| 0 <= j < after.len() && j != at implies (#[trigger] after[j]) == cols[if j
        < at {
        j
    } else {
        j - 1
    }] by {}
    assert(after[at] == seq![e]);
    assert forall|x: Entity| holds(after, x) implies holds(cols, x) || x == e by {
        let j = choose|j: int| 0 <= j < after.len() && (#[trigger] after[j]).contains(x);
        if j != at {
            let from = if j < at {
                j
            } else {
                j - 1
            };
            assert(after[j] == cols[from]);
            lemma_holds_at(cols, from, x);
        }
    }
    assert forall|a: int, b: int, x: Entity|
        0 <= a < b < after.len() && #[trigger] after[a].contains(x) implies !#[trigger] after[b].contains(
        x,
    ) by {
        if after[b].contains(x) {
            if a == at {
                assert(x == e);
                let fb = b - 1;
                assert(after[b] == cols[fb]);
                lemma_holds_at(cols, fb, e);
            } else if b == at {
                assert(x == e);
                let fa = if a < at {
                    a
                } else {
                    a - 1
                };
                assert(after[a] == cols[fa]);
                lemma_holds_at(cols, fa, e);
            } else {
                let fa = if a < at {
                    a
                } else {
                    a - 1
                };
                let fb = if b < at {
                    b
                } else {
                    b - 1
                };
                assert(after[a] == cols[fa]);
                assert(after[b] == cols[fb]);
                assert(cols[fa].contains(x));
            }
        }
    }
    assert forall|j: int| 0 <= j < after.len() implies (#[trigger] after[j]).len() >= 1
        && after[j].no_duplicates() by {
        if j != at {
            let from = if j < at {
                j
            } else {
                j - 1
            };
            assert(after[j] == cols[from]);
        }
    }
}

/// Moving a column changes neither which windows a strip holds nor that
/// it holds none twice.
pub proof fn lemma_moved_column(cols: Seq<Seq<Entity>>, from: int, to: int)
    requires
        0 <= from < cols.len(),
        0 <= to < cols.len(),
        columns_wf(cols),
        columns_disjoint(cols),
    ensures
        columns_wf(moved_column(cols, from, to)),
        columns_disjoint(moved_column(cols, from, to)),
        holds_no_more(moved_column(cols, from, to), cols),
{
    let without_it = cols.remove(from);
    let after = moved_column(cols, from, to);
    assert forall|j: int| 0 <= j < after.len() implies (#[trigger] after[j]) == cols[moved_from(
        j,
        from,
        to,
    )] && 0 <= moved_from(j, from, to) < cols.len() by {}
    assert forall|x: Entity| holds(after, x) implies holds(cols, x) by {
        let j = choose|j: int| 0 <= j < after.len() && (#[trigger] after[j]).contains(x);
        assert(after[j] == cols[moved_from(j, from, to)]);
        lemma_holds_at(cols, moved_from(j, from, to), x);
    }
    assert forall|a: int, b: int, x: Entity|
        0 <= a < b < after.len() && #[trigger] after[a].contains(x) implies !#[trigger] after[b].contains(
        x,
    ) by {
        let fa = moved_from(a, from, to);
        let fb = moved_from(b, from, to);
        assert(after[a] == cols[fa]);
        assert(after[b] == cols[fb]);
        assert(cols[fa].contains(x));
        assert(fa != fb);
        if fa < fb {
            assert(!cols[fb].contains(x));
        } else {
            if cols[fb].contains(x) {
                assert(!cols[fa].contains(x));
            }
        }
    }
    assert forall|j: int| 0 <= j < after.len() implies (#[trigger] after[j]).len() >= 1
        && after[j].no_duplicates() by {
        assert(after[j] == cols[moved_from(j, from, to)]);
    }
}

/// Where the column that is at `j` after the column at `from` moved to
/// `to` was before.
spec fn moved_from(j: int, from: int, to: int) -> int {
    if j == to {
        from
    } else {
        let k = if j < to {
            j
        } else {
            j - 1
        };
        if k < from {
            k
        } else {
            k + 1
        }
    }
}

/// Where the column at `j` was before the column at `i` went away.
spec fn before_gap(j: int, i: int) -> int {
    if j < i {
        j
    } else {
        j + 1
    }
}

/// Where the column at `j` was before a column entered after the one at
/// `i`.
spec fn before_split(j: int, i: int) -> int {
    if j <= i {
        j
    } else {
        j - 1
    }
}

/// Stacking a window changes neither which windows a strip holds nor that
/// it holds none twice.
pub proof fn lemma_stacked(cols: Seq<Seq<Entity>>, e: Entity)
    requires
        columns_wf(cols),
        columns_disjoint(cols),
    ensures
        columns_wf(stacked(cols, e)),
        columns_disjoint(stacked(cols, e)),
        holds_no_more(stacked(cols, e), cols),
{
    let after = stacked(cols, e);
    if holds(cols, e) {
        lemma_column_of(cols, e);
        let i = column_of(cols, e);
        if i > 0 && cols[i].len() == 1 {
            lemma_stack_merges(cols, e);
            assert(cols[i][0] == e) by {
                lemma_first_index(cols[i], e);
            }
            assert(cols[i] =~= seq![e]);
            assert forall|j: int| 0 <= j < after.len() && j != i - 1 implies (#[trigger] after[j])
                == cols[before_gap(j, i)] by {}
            assert forall|j: int, x: Entity|
                0 <= j < after.len() && #[trigger] after[j].contains(x) implies (if j == i - 1
                && x == e {
                cols[i].contains(x)
            } else {
                cols[before_gap(j, i)].contains(x)
            }) by {
                if j == i - 1 {
                    let k = choose|k: int| 0 <= k < after[j].len() && after[j][k] == x;
                    if k < cols[i - 1].len() {
                        assert(cols[i - 1][k] == x);
                    }
                }
            }
            assert forall|x: Entity| holds(after, x) implies holds(cols, x) by {
                let j = choose|j: int| 0 <= j < after.len() && (#[trigger] after[j]).contains(x);
                if j == i - 1 && x == e {
                    lemma_holds_at(cols, i, x);
                } else {
                    lemma_holds_at(cols, before_gap(j, i), x);
                }
            }
            assert forall|a: int, b: int, x: Entity|
                0 <= a < b < after.len() && #[trigger] after[a].contains(x) implies !#[trigger] after[b].contains(
                x,
            ) by {
                if after[b].contains(x) {
                    let fa = if a == i - 1 && x == e {
                        i
                    } else {
                        before_gap(a, i)
                    };
                    let fb = if b == i - 1 && x == e {
                        i
                    } else {
                        before_gap(b, i)
                    };
                    assert(cols[fa].contains(x));
                    assert(cols[fb].contains(x));
                    if fa < fb {
                        assert(!cols[fb].contains(x));
                    } else if fb < fa {
                        assert(!cols[fa].contains(x));
                    }
                }
            }
        }
    }
}

/// Unstacking a window changes neither which windows a strip holds nor
/// that it holds none twice.
pub proof fn lemma_unstacked(cols: Seq<Seq<Entity>>, e: Entity)
    requires
        columns_wf(cols),
        columns_disjoint(cols),
    ensures
        columns_wf(unstacked(cols, e)),
        columns_disjoint(unstacked(cols, e)),
        holds_no_more(unstacked(cols, e), cols),
{
    let after = unstacked(cols, e);
    if holds(cols, e) {
        lemma_column_of(cols, e);
        lemma_unstack_splits(cols, e);
        let i = column_of(cols, e);
        if cols[i].len() >= 2 {
            lemma_without(cols[i], e);
            assert forall|j: int| 0 <= j < after.len() && j != i && j != i + 1 implies (
            #[trigger] after[j]) == cols[before_split(j, i)] by {}
            assert forall|j: int, x: Entity|
                0 <= j < after.len() && #[trigger] after[j].contains(x) implies cols[before_split(
                    j,
                    i,
                )].contains(x) && (j == i + 1 ==> x != e) && (j == i ==> x == e) by {
                if j == i {
                    assert(after[j] == seq![e]);
                    let k = choose|k: int| 0 <= k < after[j].len() && after[j][k] == x;
                }
            }
            assert forall|x: Entity| holds(after, x) implies holds(cols, x) by {
                let j = choose|j: int| 0 <= j < after.len() && (#[trigger] after[j]).contains(x);
                lemma_holds_at(cols, before_split(j, i), x);
            }
            assert forall|a: int, b: int, x: Entity|
                0 <= a < b < after.len() && #[trigger] after[a].contains(x) implies !#[trigger] after[b].contains(
                x,
            ) by {
                if after[b].contains(x) {
                    let fa = before_split(a, i);
                    let fb = before_split(b, i);
                    assert(cols[fa].contains(x));
                    assert(cols[fb].contains(x));
                    if fa < fb {
                        assert(!cols[fb].contains(x));
                    }
                }
            }
        }
    }
}

fn in_i32(v: i64) -> (r: bool)
    ensures
        r == fits_i32(v as int),
{
    -0x8000_0000 <= v && v <= 0x7fff_ffff
}

pub open spec fn spec_min_len(a: int, b: int) -> int {
    if a < b {
        a
    } else {
        b
    }
}

} // verus!
