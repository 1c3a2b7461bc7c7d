use vstd::prelude::*;

use crate::branch::{Branch, BranchKind};
use crate::order::{
    bytes_le, lemma_lex_le_antisym, lemma_lex_le_total, lemma_lex_le_trans, lex_le, opt_epoch_le,
    opt_epoch_le_exec,
};
use vstd::seq_lib::to_multiset_insert;
use vstd::utf8::{encode_utf8, encode_utf8_decode_utf8};

verus! {

/// The fixed cycle of sort modes the catalog advances through.
#[derive(Clone, Copy, Debug, PartialEq, Eq, Structural)]
pub enum Sort {
    NameAscending,
    NameDescending,
    DateAscending,
    DateDescending,
}

impl Default for Sort {
    /// The catalog's default ordering: newest branch first.
    fn default() -> (r: Sort)
        ensures
            r == Sort::DateDescending,
    {
        Sort::DateDescending
    }
}

/// The sort mode after one advance through the fixed cycle.
pub open spec fn next_sort(m: Sort) -> Sort {
    match m {
        Sort::NameAscending => Sort::NameDescending,
        Sort::NameDescending => Sort::DateAscending,
        Sort::DateAscending => Sort::DateDescending,
        Sort::DateDescending => Sort::NameAscending,
    }
}

/// Which reference namespace is enumerated: one branch kind, or all
/// (absent selection) of them.
#[derive(Clone, Copy, Debug, PartialEq, Eq, Structural)]
pub struct Filter {
    pub sel: Option<BranchKind>,
}

impl Default for Filter {
    /// The default filter: local branches.
    fn default() -> (r: Filter)
        ensures
            r.sel == Some(BranchKind::Local),
    {
        Filter { sel: Some(BranchKind::Local) }
    }
}

impl Filter {
    /// A filter selecting one branch kind, or all of them.
    pub fn new(sel: Option<BranchKind>) -> (r: Filter)
        ensures
            r.sel == sel,
    {
        Filter { sel }
    }

    /// The selected branch kind; absent means all kinds.
    pub fn typ(&self) -> (r: Option<BranchKind>)
        ensures
            r == self.sel,
    {
        self.sel
    }

    /// Advances the selection through all kinds, one local kind, one
    /// remote kind, and back.
    pub fn cycle(&mut self)
        ensures
            final(self).sel == match old(self).sel {
                Option::None => Some(BranchKind::Local),
                Option::Some(BranchKind::Local) => Some(BranchKind::Remote),
                Option::Some(BranchKind::Remote) => None::<BranchKind>,
            },
    {
        self.sel = match self.sel {
            Option::None => Some(BranchKind::Local),
            Option::Some(BranchKind::Local) => Some(BranchKind::Remote),
            Option::Some(BranchKind::Remote) => None,
        };
    }
}

/// One entry of the catalog.
#[derive(Clone, Debug)]
pub struct BranchItem {
    pub branch: Branch,
}

impl BranchItem {
    pub fn new(val: Branch) -> (r: BranchItem)
        ensures
            r.branch == val,
    {
        BranchItem { branch: val }
    }
}

/// The UTF-8 bytes of an item's branch name: the name-sort key.
pub open spec fn name_bytes(it: BranchItem) -> Seq<u8> {
    encode_utf8(it.branch.name@)
}

/// The date-sort key: the epoch of the first (newest) loaded commit,
/// absent when the branch has no loaded commits.
pub open spec fn first_epoch(it: BranchItem) -> Option<i64> {
    if it.branch.commits@.len() == 0 {
        None
    } else {
        Some(it.branch.commits@[0].timestamp.epoch)
    }
}

/// Whether `a` may precede `b` under a sort mode.
pub open spec fn item_le(m: Sort, a: BranchItem, b: BranchItem) -> bool {
    match m {
        Sort::NameAscending => lex_le(name_bytes(a), name_bytes(b)),
        Sort::NameDescending => lex_le(name_bytes(b), name_bytes(a)),
        Sort::DateAscending => opt_epoch_le(first_epoch(a), first_epoch(b)),
        Sort::DateDescending => opt_epoch_le(first_epoch(b), first_epoch(a)),
    }
}

/// A sequence ordered by a sort mode.
pub open spec fn item_sorted(m: Sort, s: Seq<BranchItem>) -> bool {
    forall|i: int, j: int| 0 <= i < j < s.len() ==> item_le(m, s[i], s[j])
}

/// Any two items are comparable under every mode.
pub proof fn lemma_item_le_total(m: Sort, a: BranchItem, b: BranchItem)
    ensures
        item_le(m, a, b) || item_le(m, b, a),
{
    lemma_lex_le_total(name_bytes(a), name_bytes(b));
}

/// `item_le` is transitive under every mode.
pub proof fn lemma_item_le_trans(m: Sort, a: BranchItem, b: BranchItem, c: BranchItem)
    requires
        item_le(m, a, b),
        item_le(m, b, c),
    ensures
        item_le(m, a, c),
{
    match m {
        Sort::NameAscending => lemma_lex_le_trans(name_bytes(a), name_bytes(b), name_bytes(c)),
        Sort::NameDescending => lemma_lex_le_trans(name_bytes(c), name_bytes(b), name_bytes(a)),
        Sort::DateAscending => {},
        Sort::DateDescending => {},
    }
}

/// Where an item lands when inserted into an ordered sequence: after
/// every item it may follow, so equal keys keep their existing order.
pub open spec fn insert_item(m: Sort, s: Seq<BranchItem>, x: BranchItem) -> Seq<BranchItem>
    decreases s.len(),
{
    if s.len() == 0 {
        seq![x]
    } else if item_le(m, s.last(), x) {
        s.push(x)
    } else {
        insert_item(m, s.drop_last(), x).push(s.last())
    }
}

/// The stable ordering of an item sequence under a mode: items are
/// taken in their existing (enumeration) order and each is placed after
/// all items with an equal-or-preceding key, so branches with equal
/// sort keys retain their relative enumeration order.
pub open spec fn sort_items_spec(m: Sort, s: Seq<BranchItem>) -> Seq<BranchItem>
    decreases s.len(),
{
    if s.len() == 0 {
        Seq::<BranchItem>::empty()
    } else {
        insert_item(m, sort_items_spec(m, s.drop_last()), s.last())
    }
}

proof fn lemma_insert_item_at(m: Sort, s: Seq<BranchItem>, x: BranchItem, k: int)
    requires
        0 <= k <= s.len(),
        forall|j: int| k <= j < s.len() ==> !item_le(m, s[j], x),
        k > 0 ==> item_le(m, s[k - 1], x),
    ensures
        insert_item(m, s, x) == s.insert(k, x),
    decreases s.len(),
{
    if s.len() == 0 {
        assert(insert_item(m, s, x) =~= s.insert(0, x));
    } else if k == s.len() {
        assert(item_le(m, s.last(), x));
        assert(insert_item(m, s, x) =~= s.insert(k, x));
    } else {
        assert(!item_le(m, s.last(), x));
        lemma_insert_item_at(m, s.drop_last(), x, k);
        assert(insert_item(m, s, x) == insert_item(m, s.drop_last(), x).push(s.last()));
        assert(s.drop_last().insert(k, x).push(s.last()) =~= s.insert(k, x));
    }
}

proof fn lemma_item_cut(m: Sort, s: Seq<BranchItem>, x: BranchItem) -> (k: int)
    requires
        item_sorted(m, s),
    ensures
        0 <= k <= s.len(),
        forall|j: int| k <= j < s.len() ==> !item_le(m, s[j], x),
        k > 0 ==> item_le(m, s[k - 1], x),
        insert_item(m, s, x) == s.insert(k, x),
    decreases s.len(),
{
    let k: int;
    if s.len() == 0 {
        k = 0;
    } else if item_le(m, s.last(), x) {
        k = s.len() as int;
    } else {
        assert(item_sorted(m, s.drop_last()));
        let k0 = lemma_item_cut(m, s.drop_last(), x);
        assert forall|j: int| k0 <= j < s.len() implies !item_le(m, s[j], x) by {
            if j < s.len() - 1 {
                assert(s.drop_last()[j] == s[j]);
            }
        }
        k = k0;
    }
    lemma_insert_item_at(m, s, x, k);
    k
}

/// The names of an item sequence, as byte keys.
pub open spec fn name_keys(s: Seq<BranchItem>) -> Seq<Seq<u8>> {
    s.map_values(|it: BranchItem| name_bytes(it))
}

/// Inserting keeps the order, grows the contents by the new item, and
/// adds its name to the name keys.
pub proof fn lemma_insert_item_sorted(m: Sort, s: Seq<BranchItem>, x: BranchItem)
    requires
        item_sorted(m, s),
    ensures
        item_sorted(m, insert_item(m, s, x)),
        insert_item(m, s, x).len() == s.len() + 1,
        insert_item(m, s, x).to_multiset() == s.to_multiset().insert(x),
        name_keys(insert_item(m, s, x)).to_multiset() == name_keys(s).to_multiset().insert(
            name_bytes(x),
        ),
{
    let k = lemma_item_cut(m, s, x);
    let t = s.insert(k, x);
    assert forall|i: int, j: int| 0 <= i < j < t.len() implies item_le(m, t[i], t[j]) by {
        if i < k {
            assert(t[i] == s[i]);
        } else if i == k {
            assert(t[i] == x);
        } else {
            assert(t[i] == s[i - 1]);
        }
        if j < k {
            assert(t[j] == s[j]);
        } else if j == k {
            assert(t[j] == x);
            assert(item_le(m, s[k - 1], x));
            if i < k - 1 {
                lemma_item_le_trans(m, s[i], s[k - 1], x);
            }
        } else {
            assert(t[j] == s[j - 1]);
            assert(!item_le(m, s[j - 1], x));
            lemma_item_le_total(m, x, s[j - 1]);
            if i < k {
                assert(item_le(m, s[k - 1], x));
                if i < k - 1 {
                    lemma_item_le_trans(m, s[i], s[k - 1], x);
                }
                lemma_item_le_trans(m, s[i], x, s[j - 1]);
            }
        }
    }
    to_multiset_insert(s, k, x);
    assert(name_keys(t) =~= name_keys(s).insert(k, name_bytes(x)));
    to_multiset_insert(name_keys(s), k, name_bytes(x));
}

/// The stable ordering is ordered, keeps the length, and is a
/// permutation: the items, and hence the branch names, are preserved.
pub proof fn lemma_sort_items_sorted(m: Sort, s: Seq<BranchItem>)
    ensures
        item_sorted(m, sort_items_spec(m, s)),
        sort_items_spec(m, s).len() == s.len(),
        sort_items_spec(m, s).to_multiset() == s.to_multiset(),
        name_keys(sort_items_spec(m, s)).to_multiset() == name_keys(s).to_multiset(),
    decreases s.len(),
{
    broadcast use vstd::seq_lib::group_to_multiset_ensures;

    if s.len() == 0 {
        assert(name_keys(sort_items_spec(m, s)) =~= name_keys(s));
    } else {
        let s0 = s.drop_last();
        lemma_sort_items_sorted(m, s0);
        lemma_insert_item_sorted(m, sort_items_spec(m, s0), s.last());
        assert(s0.push(s.last()) =~= s);
        assert(name_keys(s0).push(name_bytes(s.last())) =~= name_keys(s));
    }
}

fn item_le_exec(m: Sort, a: &BranchItem, b: &BranchItem) -> (r: bool)
    ensures
        r == item_le(m, *a, *b),
{
    match m {
        Sort::NameAscending => bytes_le(a.branch.name.as_str().as_bytes(), b.branch.name.as_str().as_bytes()),
        Sort::NameDescending => bytes_le(b.branch.name.as_str().as_bytes(), a.branch.name.as_str().as_bytes()),
        Sort::DateAscending => {
            let ka = first_epoch_exec(a);
            let kb = first_epoch_exec(b);
            opt_epoch_le_exec(&ka, &kb)
        },
        Sort::DateDescending => {
            let ka = first_epoch_exec(a);
            let kb = first_epoch_exec(b);
            opt_epoch_le_exec(&kb, &ka)
        },
    }
}

fn first_epoch_exec(it: &BranchItem) -> (r: Option<i64>)
    ensures
        r == first_epoch(*it),
{
    if it.branch.commits.len() == 0 {
        None
    } else {
        Some(it.branch.commits[0].timestamp.epoch)
    }
}

fn insert_item_exec(m: Sort, v: &mut Vec<BranchItem>, x: BranchItem)
    ensures
        final(v)@ == insert_item(m, old(v)@, x),
{
    let ghost s = old(v)@;
    let mut k: usize = v.len();
    while k > 0 && !item_le_exec(m, &v[k - 1], &x)
        invariant
            k <= s.len(),
            v@ == s,
            forall|j: int| k <= j < s.len() ==> !item_le(m, s[j], x),
        decreases k,
    {
        k = k - 1;
    }
    proof {
        lemma_insert_item_at(m, s, x, k as int);
    }
    v.insert(k, x);
}

/// Reorders items under a mode, stably: equal keys retain their
/// relative order.
pub fn sort_items(m: Sort, v: &mut Vec<BranchItem>)
    ensures
        final(v)@ == sort_items_spec(m, old(v)@),
{
    let ghost orig = old(v)@;
    let mut rest = v.split_off(0);
    while rest.len() > 0
        invariant
            rest@.len() <= orig.len(),
            rest@ == orig.skip(orig.len() - rest@.len()),
            v@ == sort_items_spec(m, orig.take(orig.len() - rest@.len())),
        decreases rest@.len(),
    {
        let ghost done = orig.len() - rest@.len();
        let x = rest.remove(0);
        proof {
            assert(orig.skip(done).drop_first() =~= orig.skip(done + 1));
            assert(orig.take(done + 1).drop_last() =~= orig.take(done));
            assert(orig.take(done + 1).last() == orig[done]);
        }
        insert_item_exec(m, v, x);
    }
    proof {
        assert(orig.take(orig.len() as int) =~= orig);
    }
}

/// The branch sequence as catalog entries, in enumeration order.
pub open spec fn to_items(branches: Seq<Branch>) -> Seq<BranchItem> {
    branches.map_values(|b: Branch| BranchItem { branch: b })
}

/// The cursor on the first item: absent only on an empty catalog.
pub open spec fn first_cursor(len: int) -> Option<usize> {
    if len == 0 {
        None
    } else {
        Some(0usize)
    }
}

/// The cursor on the last item: absent only on an empty catalog.
pub open spec fn last_cursor(len: int) -> Option<usize> {
    if len == 0 {
        None
    } else {
        Some((len - 1) as usize)
    }
}

/// The cursor after `select_next`: one step down, clamped at the last
/// index; initialized to the first item when no cursor is set yet.
pub open spec fn next_cursor(c: Option<usize>, len: int) -> Option<usize> {
    if len == 0 {
        None
    } else {
        match c {
            Option::None => Some(0usize),
            Option::Some(i) => if i + 1 < len {
                Some((i + 1) as usize)
            } else {
                Some((len - 1) as usize)
            },
        }
    }
}

/// The cursor after `select_previous`: one step up, clamped at the
/// first index; initialized to the last item when no cursor is set yet.
pub open spec fn prev_cursor(c: Option<usize>, len: int) -> Option<usize> {
    if len == 0 {
        None
    } else {
        match c {
            Option::None => Some((len - 1) as usize),
            Option::Some(i) => if i > 0 {
                Some((i - 1) as usize)
            } else {
                Some(0usize)
            },
        }
    }
}

/// The catalog: the loaded branches for the current filter, in sort
/// order, with a cursor.
#[derive(Debug)]
pub struct List {
    pub items: Vec<BranchItem>,
    pub cursor: Option<usize>,
    pub sort: Sort,
    pub filter: Filter,
}

impl List {
    /// The cursor, if present, is a valid index into `items`.
    pub open spec fn cursor_ok(self) -> bool {
        match self.cursor {
            Option::None => true,
            Option::Some(i) => (i as int) < self.items@.len(),
        }
    }

    /// A well-formed catalog: a valid cursor, and items ordered by the
    /// active sort mode.
    pub open spec fn wf(self) -> bool {
        &&& self.cursor_ok()
        &&& item_sorted(self.sort, self.items@)
    }

    /// What `build` produces from an enumerated branch sequence: the
    /// entries in the default (date-descending) order.
    pub open spec fn build_items(branches: Seq<Branch>) -> Seq<BranchItem> {
        sort_items_spec(Sort::DateDescending, to_items(branches))
    }

    /// A freshly built catalog: sorted under the default mode, with the
    /// cursor on the first item if any.
    pub fn build(branches: Vec<Branch>, filter: Filter) -> (r: List)
        ensures
            r.sort == Sort::DateDescending,
            r.filter == filter,
            r.items@ == List::build_items(branches@),
            r.cursor == first_cursor(branches@.len() as int),
            r.wf(),
    {
        let ghost bs = branches@;
        let mut rest = branches;
        let mut items: Vec<BranchItem> = Vec::new();
        while rest.len() > 0
            invariant
                rest@.len() <= bs.len(),
                rest@ == bs.skip(bs.len() - rest@.len()),
                items@ == to_items(bs.take(bs.len() - rest@.len())),
            decreases rest@.len(),
        {
            let ghost done = bs.len() - rest@.len();
            let b = rest.remove(0);
            proof {
                assert(bs.skip(done).drop_first() =~= bs.skip(done + 1));
                assert(to_items(bs.take(done + 1)) =~= to_items(bs.take(done)).push(
                    BranchItem { branch: bs[done] },
                ));
            }
            items.push(BranchItem::new(b));
        }
        proof {
            assert(to_items(bs.take(bs.len() as int)) =~= to_items(bs));
        }
        let mut list = List { items, cursor: None, sort: Sort::default(), filter };
        list.sort();
        proof {
            lemma_sort_items_sorted(Sort::DateDescending, to_items(bs));
        }
        list.select_first();
        list
    }

    /// Re-sorts `items` in place under the active mode, stably; the
    /// cursor, mode and filter are unchanged.
    pub fn sort(&mut self)
        requires
            old(self).cursor_ok(),
        ensures
            final(self).items@ == sort_items_spec(old(self).sort, old(self).items@),
            final(self).cursor == old(self).cursor,
            final(self).sort == old(self).sort,
            final(self).filter == old(self).filter,
            final(self).wf(),
    {
        let ghost before = self.items@;
        sort_items(self.sort, &mut self.items);
        proof {
            lemma_sort_items_sorted(self.sort, before);
        }
    }

    /// Switches the sort mode: re-sorts in place and resets the cursor
    /// to the first item.
    pub fn set_sort(&mut self, m: Sort)
        requires
            old(self).cursor_ok(),
        ensures
            final(self).sort == m,
            final(self).items@ == sort_items_spec(m, old(self).items@),
            final(self).cursor == first_cursor(old(self).items@.len() as int),
            final(self).filter == old(self).filter,
            final(self).wf(),
    {
        self.sort = m;
        self.sort();
        proof {
            lemma_sort_items_sorted(m, old(self).items@);
        }
        self.select_first();
    }

    /// Advances the sort mode through the fixed cycle, re-orders the
    /// items deterministically, and resets the cursor to the first item.
    pub fn cycle_sort(&mut self)
        requires
            old(self).cursor_ok(),
        ensures
            final(self).sort == next_sort(old(self).sort),
            final(self).items@ == sort_items_spec(next_sort(old(self).sort), old(self).items@),
            final(self).cursor == first_cursor(old(self).items@.len() as int),
            final(self).filter == old(self).filter,
            final(self).wf(),
    {
        let m = match self.sort {
            Sort::NameAscending => Sort::NameDescending,
            Sort::NameDescending => Sort::DateAscending,
            Sort::DateAscending => Sort::DateDescending,
            Sort::DateDescending => Sort::NameAscending,
        };
        self.set_sort(m);
    }

    /// The item under the cursor, or absent.
    pub fn current(&self) -> (r: Option<&BranchItem>)
        requires
            self.wf(),
        ensures
            match self.cursor {
                Option::Some(i) => r matches Some(it) && *it == self.items@[i as int],
                Option::None => r is None,
            },
    {
        match self.cursor {
            Option::Some(i) => Some(&self.items[i]),
            Option::None => None,
        }
    }

    /// Moves the cursor one item down, clamped at the last item; on the
    /// first item if no cursor was set.
    pub fn select_next(&mut self)
        requires
            old(self).wf(),
        ensures
            final(self).wf(),
            final(self).cursor == next_cursor(old(self).cursor, old(self).items@.len() as int),
            final(self).items@ == old(self).items@,
            final(self).sort == old(self).sort,
            final(self).filter == old(self).filter,
    {
        let len = self.items.len();
        if len == 0 {
            self.cursor = None;
            return ;
        }
        let next: usize = match self.cursor {
            Option::None => 0,
            Option::Some(i) => if i + 1 < len {
                i + 1
            } else {
                len - 1
            },
        };
        self.cursor = Some(next);
    }

    /// Moves the cursor one item up, clamped at the first item; on the
    /// last item if no cursor was set.
    pub fn select_previous(&mut self)
        requires
            old(self).wf(),
        ensures
            final(self).wf(),
            final(self).cursor == prev_cursor(old(self).cursor, old(self).items@.len() as int),
            final(self).items@ == old(self).items@,
            final(self).sort == old(self).sort,
            final(self).filter == old(self).filter,
    {
        let len = self.items.len();
        if len == 0 {
            self.cursor = None;
            return ;
        }
        let prev: usize = match self.cursor {
            Option::None => len - 1,
            Option::Some(i) => if i > 0 {
                i - 1
            } else {
                0
            },
        };
        self.cursor = Some(prev);
    }

    /// Puts the cursor on the first item, if any.
    pub fn select_first(&mut self)
        requires
            old(self).wf(),
        ensures
            final(self).wf(),
            final(self).cursor == first_cursor(old(self).items@.len() as int),
            final(self).items@ == old(self).items@,
            final(self).sort == old(self).sort,
            final(self).filter == old(self).filter,
    {
        if self.items.len() == 0 {
            self.cursor = None;
        } else {
            self.cursor = Some(0);
        }
    }

    /// Puts the cursor on the last item, if any.
    pub fn select_last(&mut self)
        requires
            old(self).wf(),
        ensures
            final(self).wf(),
            final(self).cursor == last_cursor(old(self).items@.len() as int),
            final(self).items@ == old(self).items@,
            final(self).sort == old(self).sort,
            final(self).filter == old(self).filter,
    {
        let len = self.items.len();
        if len == 0 {
            self.cursor = None;
        } else {
            self.cursor = Some(len - 1);
        }
    }

    /// Clears the cursor unconditionally.
    pub fn select_none(&mut self)
        requires
            old(self).wf(),
        ensures
            final(self).wf(),
            final(self).cursor is None,
            final(self).items@ == old(self).items@,
            final(self).sort == old(self).sort,
            final(self).filter == old(self).filter,
    {
        self.cursor = None;
    }
}

/// The cursor of a well-formed catalog is absent or a valid index; on
/// an empty catalog it is always absent.
pub proof fn lemma_cursor_valid(l: List)
    requires
        l.wf(),
    ensures
        l.cursor matches Some(i) ==> (i as int) < l.items@.len(),
        l.items@.len() == 0 ==> l.cursor is None,
{
}

/// Moving next and then previous returns to the starting index from
/// any valid cursor not on the last item. At the boundaries the moves
/// clamp: `select_next` stays put on the last index, `select_previous`
/// on the first.
pub proof fn lemma_next_then_previous(i: usize, len: int)
    requires
        (i as int) < len,
        len <= usize::MAX,
    ensures
        i + 1 < len ==> prev_cursor(next_cursor(Some(i), len), len) == Some(i),
        i as int == len - 1 ==> next_cursor(Some(i), len) == Some(i),
        i == 0 ==> prev_cursor(Some(i), len) == Some(i),
{
}

/// Four advances return the sort mode to where it started.
pub proof fn lemma_sort_cycle_period(m: Sort)
    ensures
        next_sort(next_sort(next_sort(next_sort(m)))) == m,
{
}

proof fn lemma_insert_reversed(r: Seq<BranchItem>, x: BranchItem)
    requires
        item_sorted(Sort::NameAscending, r),
        forall|i: int| 0 <= i < r.len() ==> name_bytes(#[trigger] r[i]) != name_bytes(x),
    ensures
        insert_item(Sort::NameDescending, r.reverse(), x) == insert_item(
            Sort::NameAscending,
            r,
            x,
        ).reverse(),
{
    let len = r.len() as int;
    let k = lemma_item_cut(Sort::NameAscending, r, x);
    let rev = r.reverse();
    let kp = len - k;
    assert forall|i: int, j: int| 0 <= i < j < rev.len() implies item_le(
        Sort::NameDescending,
        rev[i],
        rev[j],
    ) by {
        assert(rev[i] == r[len - 1 - i]);
        assert(rev[j] == r[len - 1 - j]);
        assert(item_le(Sort::NameAscending, r[len - 1 - j], r[len - 1 - i]));
    }
    assert forall|j: int| kp <= j < rev.len() implies !item_le(Sort::NameDescending, rev[j], x) by {
        let i = len - 1 - j;
        assert(rev[j] == r[i]);
        assert(i < k);
        assert(item_le(Sort::NameAscending, r[k - 1], x));
        if i < k - 1 {
            lemma_item_le_trans(Sort::NameAscending, r[i], r[k - 1], x);
        }
        assert(lex_le(name_bytes(r[i]), name_bytes(x)));
        if item_le(Sort::NameDescending, r[i], x) {
            lemma_lex_le_antisym(name_bytes(r[i]), name_bytes(x));
            assert(false);
        }
    }
    if kp > 0 {
        assert(rev[kp - 1] == r[k]);
        assert(!item_le(Sort::NameAscending, r[k], x));
        lemma_lex_le_total(name_bytes(r[k]), name_bytes(x));
        assert(item_le(Sort::NameDescending, rev[kp - 1], x));
    }
    lemma_insert_item_at(Sort::NameDescending, rev, x, kp);
    let t1 = rev.insert(kp, x);
    let t2 = r.insert(k, x).reverse();
    assert forall|i: int| 0 <= i < t1.len() implies t1[i] == t2[i] by {
        let t = r.insert(k, x);
        assert(t2[i] == t[len - i]);
        if i < kp {
            assert(t1[i] == rev[i]);
            assert(rev[i] == r[len - 1 - i]);
            assert(t[len - i] == r[len - i - 1]);
        } else if i == kp {
            assert(t1[i] == x);
            assert(t[k] == x);
        } else {
            assert(t1[i] == rev[i - 1]);
            assert(rev[i - 1] == r[len - i]);
            assert(t[len - i] == r[len - i]);
        }
    }
    assert(t1 =~= t2);
}

proof fn lemma_name_reversed_rec(s: Seq<BranchItem>)
    requires
        forall|i: int, j: int|
            0 <= i < j < s.len() ==> name_bytes(#[trigger] s[i]) != name_bytes(#[trigger] s[j]),
    ensures
        sort_items_spec(Sort::NameDescending, s) == sort_items_spec(
            Sort::NameAscending,
            s,
        ).reverse(),
    decreases s.len(),
{
    broadcast use vstd::seq_lib::group_to_multiset_ensures;

    if s.len() == 0 {
        assert(sort_items_spec(Sort::NameDescending, s) =~= sort_items_spec(
            Sort::NameAscending,
            s,
        ).reverse());
    } else {
        let s0 = s.drop_last();
        let x = s.last();
        lemma_name_reversed_rec(s0);
        let asc = sort_items_spec(Sort::NameAscending, s0);
        lemma_sort_items_sorted(Sort::NameAscending, s0);
        assert forall|i: int| 0 <= i < asc.len() implies name_bytes(#[trigger] asc[i])
            != name_bytes(x) by {
            assert(name_keys(asc)[i] == name_bytes(asc[i]));
            assert(name_keys(asc).contains(name_bytes(asc[i])));
            assert(name_keys(asc).to_multiset().count(name_bytes(asc[i])) > 0);
            assert(name_keys(s0).to_multiset().count(name_bytes(asc[i])) > 0);
            assert(name_keys(s0).contains(name_bytes(asc[i])));
            let j = choose|j: int|
                0 <= j < name_keys(s0).len() && name_keys(s0)[j] == name_bytes(asc[i]);
            assert(name_bytes(s0[j]) == name_bytes(asc[i]));
            assert(s0[j] == s[j] && x == s[s.len() - 1]);
        }
        lemma_insert_reversed(asc, x);
        assert(sort_items_spec(Sort::NameDescending, s) == insert_item(
            Sort::NameDescending,
            asc.reverse(),
            x,
        ));
    }
}

/// Sorting by name ascending and by name descending order the same
/// item set into exactly reversed sequences, whenever no two branch
/// names are equal.
pub proof fn lemma_name_sorts_reversed(s: Seq<BranchItem>)
    requires
        forall|i: int, j: int|
            0 <= i < j < s.len() ==> (#[trigger] s[i]).branch.name@ != (
            #[trigger] s[j]).branch.name@,
    ensures
        sort_items_spec(Sort::NameDescending, s) == sort_items_spec(
            Sort::NameAscending,
            s,
        ).reverse(),
{
    assert forall|i: int, j: int| 0 <= i < j < s.len() implies name_bytes(#[trigger] s[i])
        != name_bytes(#[trigger] s[j]) by {
        if name_bytes(s[i]) == name_bytes(s[j]) {
            encode_utf8_decode_utf8(s[i].branch.name@);
            encode_utf8_decode_utf8(s[j].branch.name@);
        }
    }
    lemma_name_reversed_rec(s);
}

/// Switching the filter away and back reproduces the original item
/// sequence exactly, whenever the repository was not mutated in
/// between: the rebuilt catalog is a function of the enumerated
/// branches alone, so two enumerations that return the same branches
/// yield the same items.
pub proof fn lemma_filter_round_trip(before: Seq<Branch>, after: Seq<Branch>)
    requires
        after == before,
    ensures
        List::build_items(after) == List::build_items(before),
{
}

} // verus!
