//! Reading the chapters of a project in order.

use crate::invariants::{lemma_listed_once, lemma_volume_index};
use crate::model::ProjectView;
use crate::project::{chapter_views, NovelProject};
use crate::storage::views;
use crate::types::{Chapter, ChapterId, ChapterView, VolumeId};
use vstd::prelude::*;
use vstd::std_specs::iter::IteratorSpec;

verus! {

impl ProjectView {
    /// Whether `listing` holds the chapters that the index has under `keys`,
    /// in the order of `keys`, and `keys` are all the numbers of the index,
    /// each once.
    pub open spec fn lists_by(self, keys: Seq<u64>, listing: Seq<ChapterView>) -> bool {
        &&& keys.no_duplicates()
        &&& keys.to_set() == self.chapters.dom()
        &&& listing.len() == keys.len()
        &&& forall|i: int| 0 <= i < keys.len() ==> listing[i] == self.chapters[#[trigger] keys[i]]
    }

    /// Whether `listing` holds every chapter of the index once.
    pub open spec fn lists_all_chapters(self, listing: Seq<ChapterView>) -> bool {
        exists|keys: Seq<u64>| self.lists_by(keys, listing)
    }

    /// Whether the chapters of `listing` stand by their volume's order
    /// first and their own order second.
    pub open spec fn is_in_reading_order(self, listing: Seq<ChapterView>) -> bool {
        forall|i: int, j: int|
            0 <= i < j < listing.len() ==> self.in_reading_order(listing[i], listing[j])
    }
}

/// In a consistent project no two chapters stand at the same place of the
/// reading order: of two chapters, one comes before the other.
pub proof fn lemma_reading_order_is_strict(project: ProjectView, a: u64, b: u64)
    requires
        project.consistent(),
        project.chapters.contains_key(a),
        project.chapters.contains_key(b),
        project.in_reading_order(project.chapters[a], project.chapters[b]),
        project.in_reading_order(project.chapters[b], project.chapters[a]),
    ensures
        a == b,
{
    assert(project.is_listed(a));
    let (v, j) = choose|v: int, j: int|
        #![trigger project.volumes[v].chapter_ids[j]]
        0 <= v < project.volumes.len() && 0 <= j < project.volumes[v].chapter_ids.len()
            && project.volumes[v].id == project.chapters[a].volume_id
            && project.volumes[v].chapter_ids[j] == ChapterId(a);
    assert(project.is_listed(b));
    let (w, i) = choose|w: int, i: int|
        #![trigger project.volumes[w].chapter_ids[i]]
        0 <= w < project.volumes.len() && 0 <= i < project.volumes[w].chapter_ids.len()
            && project.volumes[w].id == project.chapters[b].volume_id
            && project.volumes[w].chapter_ids[i] == ChapterId(b);
    lemma_volume_index(project, v);
    lemma_volume_index(project, w);
    assert(project.volumes[v].order == v);
    assert(project.volumes[w].order == w);
    assert(project.chapters[project.volumes[v].chapter_ids[j].0].order == j);
    assert(project.chapters[project.volumes[w].chapter_ids[i].0].order == i);
}

/// In a consistent project there is one listing of all chapters in reading
/// order and no other.
pub proof fn lemma_reading_order_is_unique(
    project: ProjectView,
    first: Seq<ChapterView>,
    second: Seq<ChapterView>,
)
    requires
        project.consistent(),
        project.lists_all_chapters(first),
        project.is_in_reading_order(first),
        project.lists_all_chapters(second),
        project.is_in_reading_order(second),
    ensures
        first == second,
{
    let keys = choose|keys: Seq<u64>| project.lists_by(keys, first);
    let others = choose|others: Seq<u64>| project.lists_by(others, second);
    keys.unique_seq_to_set();
    others.unique_seq_to_set();
    lemma_same_keys(project, keys, first, others, second, keys.len() as int);
    assert forall|i: int| 0 <= i < first.len() implies first[i] == second[i] by {
        assert(first[i] == project.chapters[keys[i]]);
        assert(second[i] == project.chapters[others[i]]);
    }
    assert(first =~= second);
}

/// Two listings of all chapters of a consistent project in reading order
/// name the same chapters at their first `n` places.
proof fn lemma_same_keys(
    project: ProjectView,
    keys: Seq<u64>,
    first: Seq<ChapterView>,
    others: Seq<u64>,
    second: Seq<ChapterView>,
    n: int,
)
    requires
        project.consistent(),
        project.lists_by(keys, first),
        project.is_in_reading_order(first),
        project.lists_by(others, second),
        project.is_in_reading_order(second),
        keys.len() == others.len(),
        0 <= n <= keys.len(),
    ensures
        forall|i: int| 0 <= i < n ==> keys[i] == others[i],
    decreases n,
{
    if n > 0 {
        lemma_same_keys(project, keys, first, others, second, n - 1);
        let at = n - 1;
        let a = keys[at];
        let b = others[at];
        if a != b {
            assert(keys.to_set().contains(a));
            assert(others.to_set().contains(a));
            let j = choose|j: int| 0 <= j < others.len() && others[j] == a;
            assert(others.to_set().contains(b));
            assert(keys.to_set().contains(b));
            let i = choose|i: int| 0 <= i < keys.len() && keys[i] == b;
            if j < at {
                assert(keys[j] == others[j]);
            }
            if i < at {
                assert(others[i] == keys[i]);
            }
            assert(project.in_reading_order(second[at], second[j]));
            assert(project.in_reading_order(first[at], first[i]));
            assert(project.chapters.dom().contains(a));
            assert(project.chapters.dom().contains(b));
            lemma_reading_order_is_strict(project, a, b);
        }
    }
}

impl ProjectView {
    /// The numbers of the chapters that the first `n` volumes list, volume
    /// after volume.
    pub open spec fn listed_numbers(self, n: int) -> Seq<u64>
        decreases n,
    {
        if n <= 0 {
            Seq::empty()
        } else {
            self.listed_numbers(n - 1) + self.volumes[n - 1].chapter_ids.map_values(
                |id: ChapterId| id.0,
            )
        }
    }

    /// The chapters of the volumes, volume after volume, each volume's
    /// chapters in the order of its list.
    pub open spec fn by_volumes(self) -> Seq<ChapterView> {
        self.listed_numbers(self.volumes.len() as int).map_values(|k: u64| self.chapters[k])
    }

    /// The place among the chapters of the volumes at which the chapter at
    /// position `j` of the volume `v` stands.
    pub open spec fn place(self, v: int, j: int) -> int {
        self.listed_numbers(v).len() + j
    }

    /// The volume and the position in its list that the place `x` among
    /// the chapters of the first `n` volumes stands for.
    pub open spec fn locate(self, n: int, x: int) -> (int, int)
        decreases n,
    {
        if n <= 0 {
            (0, 0)
        } else if x >= self.listed_numbers(n - 1).len() {
            (n - 1, x - self.listed_numbers(n - 1).len())
        } else {
            self.locate(n - 1, x)
        }
    }
}

/// Every place among the chapters of the first `n` volumes stands for a
/// position in the list of one of these volumes, and later places stand for
/// later volumes or later positions.
proof fn lemma_locate(project: ProjectView, n: int)
    requires
        0 <= n <= project.volumes.len(),
    ensures
        forall|x: int|
            0 <= x < project.listed_numbers(n).len() ==> ({
                let (v, j) = #[trigger] project.locate(n, x);
                &&& 0 <= v < n
                &&& 0 <= j < project.volumes[v].chapter_ids.len()
                &&& project.listed_numbers(n)[x] == project.volumes[v].chapter_ids[j].0
            }),
        forall|x: int, y: int|
            0 <= x < y < project.listed_numbers(n).len() ==> ({
                let (v, j) = #[trigger] project.locate(n, x);
                let (w, i) = #[trigger] project.locate(n, y);
                v < w || (v == w && j < i)
            }),
        forall|v: int, j: int|
            0 <= v < n && 0 <= j < project.volumes[v].chapter_ids.len() ==> 0 <= (
            #[trigger] project.place(v, j)) < project.listed_numbers(n).len()
                && project.listed_numbers(n)[project.place(v, j)]
                == project.volumes[v].chapter_ids[j].0,
    decreases n,
{
    if n > 0 {
        lemma_locate(project, n - 1);
        let before = project.listed_numbers(n - 1);
        let added = project.volumes[n - 1].chapter_ids.map_values(|id: ChapterId| id.0);
        let all = project.listed_numbers(n);
        assert(all == before + added);
        assert forall|x: int| 0 <= x < all.len() implies ({
            let (v, j) = #[trigger] project.locate(n, x);
            &&& 0 <= v < n
            &&& 0 <= j < project.volumes[v].chapter_ids.len()
            &&& all[x] == project.volumes[v].chapter_ids[j].0
        }) by {
            if x < before.len() {
                assert(all[x] == before[x]);
                let (v, j) = project.locate(n - 1, x);
                assert(0 <= v < n - 1);
            } else {
                assert(all[x] == added[x - before.len()]);
            }
        }
        assert forall|x: int, y: int| 0 <= x < y < all.len() implies ({
            let (v, j) = #[trigger] project.locate(n, x);
            let (w, i) = #[trigger] project.locate(n, y);
            v < w || (v == w && j < i)
        }) by {
            if y < before.len() {
                let (v, j) = project.locate(n - 1, x);
                let (w, i) = project.locate(n - 1, y);
                assert(v < w || (v == w && j < i));
            } else if x < before.len() {
                let (v, j) = project.locate(n - 1, x);
                assert(0 <= v < n - 1);
            }
        }
        assert forall|v: int, j: int|
            0 <= v < n && 0 <= j < project.volumes[v].chapter_ids.len() implies 0 <= (
        #[trigger] project.place(v, j)) < all.len() && all[project.place(v, j)]
            == project.volumes[v].chapter_ids[j].0 by {
            if v < n - 1 {
                let at = project.place(v, j);
                assert(0 <= at < before.len() && before[at] == project.volumes[v].chapter_ids[j].0);
                assert(all[at] == before[at]);
            } else {
                assert(all[before.len() + j] == added[j]);
            }
        }
    }
}

/// In a consistent project the chapters of the volumes, volume after
/// volume, are all chapters in reading order.
pub proof fn lemma_by_volumes_is_reading_order(project: ProjectView)
    requires
        project.consistent(),
    ensures
        project.lists_all_chapters(project.by_volumes()),
        project.is_in_reading_order(project.by_volumes()),
{
    let n = project.volumes.len() as int;
    let keys = project.listed_numbers(n);
    let listing = project.by_volumes();
    lemma_locate(project, n);
    assert forall|x: int, y: int| 0 <= x < keys.len() && 0 <= y < keys.len() && x != y implies keys[x]
        != keys[y] by {
        let (v, j) = project.locate(n, x);
        let (w, i) = project.locate(n, y);
        if x < y {
            assert(v < w || (v == w && j < i));
        } else {
            assert(w < v || (w == v && i < j));
        }
        if keys[x] == keys[y] {
            let a = project.volumes[v].chapter_ids[j];
            let b = project.volumes[w].chapter_ids[i];
            assert(ChapterId(a.0) == a && ChapterId(b.0) == b);
            lemma_listed_once(project, v, j, w, i);
        }
    }
    assert forall|k: u64| keys.to_set().contains(k) == project.chapters.dom().contains(k) by {
        if keys.contains(k) {
            let x = choose|x: int| 0 <= x < keys.len() && keys[x] == k;
            let (v, j) = project.locate(n, x);
            assert(project.belongs_to(project.volumes[v].chapter_ids[j], project.volumes[v].id));
        }
        if project.chapters.contains_key(k) {
            assert(project.is_listed(k));
            let (v, j) = choose|v: int, j: int|
                #![trigger project.volumes[v].chapter_ids[j]]
                0 <= v < project.volumes.len() && 0 <= j < project.volumes[v].chapter_ids.len()
                    && project.volumes[v].id == project.chapters[k].volume_id
                    && project.volumes[v].chapter_ids[j] == ChapterId(k);
            let at = project.place(v, j);
            assert(keys[at] == project.volumes[v].chapter_ids[j].0);
        }
    }
    assert(keys.to_set() =~= project.chapters.dom());
    assert(project.lists_by(keys, listing));
    assert forall|x: int, y: int| 0 <= x < y < listing.len() implies project.in_reading_order(
        listing[x],
        listing[y],
    ) by {
        let (v, j) = project.locate(n, x);
        let (w, i) = project.locate(n, y);
        assert(v < w || (v == w && j < i));
        let a = project.volumes[v].chapter_ids[j];
        let b = project.volumes[w].chapter_ids[i];
        assert(project.belongs_to(a, project.volumes[v].id));
        assert(project.belongs_to(b, project.volumes[w].id));
        lemma_volume_index(project, v);
        lemma_volume_index(project, w);
        assert(project.volumes[v].order == v);
        assert(project.volumes[w].order == w);
        assert(project.chapters[a.0].order == j);
        assert(project.chapters[b.0].order == i);
        assert(listing[x] == project.chapters[a.0]);
        assert(listing[y] == project.chapters[b.0]);
    }
}

impl NovelProject {
    /// The chapters that the first volume `volume_id` lists and the index
    /// holds, in the volume's order; none where there is no such volume.
    pub fn get_chapters_for_volume(&self, volume_id: VolumeId) -> (chapters: Vec<&Chapter>)
        ensures
            views(chapters@) == self@.chapters_for_volume(volume_id),
    {
        broadcast use vstd::std_specs::hash::group_hash_axioms;

        let mut chapters: Vec<&Chapter> = Vec::new();
        match self.find_volume(volume_id) {
            None => {
                assert(views(chapters@) =~= Seq::empty());
            },
            Some(v) => {
                let ids = &self.volumes[v].chapter_ids;
                let ghost lookup = self@.lookup();
                assert(ids@ == self@.volumes[v as int].chapter_ids);
                assert(ids@.take(0) =~= Seq::empty());
                assert(views(chapters@) =~= Seq::empty());
                let mut j: usize = 0;
                while j < ids.len()
                    invariant
                        j <= ids@.len(),
                        lookup == self@.lookup(),
                        views(chapters@) == ids@.take(j as int).filter_map(lookup),
                    decreases ids.len() - j,
                {
                    let id = ids[j];
                    let ghost index = self.chapters@;
                    let ghost found = views(chapters@);
                    proof {
                        let next = ids@.take(j + 1);
                        assert(next.drop_last() == ids@.take(j as int));
                        assert(next.last() == id);
                        assert(chapter_views(index).contains_key(id.0) == index.contains_key(
                            id.0,
                        ));
                        assert(index.contains_key(id.0) ==> chapter_views(index)[id.0]
                            == index[id.0]@);
                    }
                    match self.chapters.get(&id.0) {
                        Some(chapter) => {
                            chapters.push(chapter);
                            assert(views(chapters@) =~= found + seq![chapter@]);
                        },
                        None => {},
                    }
                    j = j + 1;
                }
                assert(ids@.take(ids@.len() as int) == ids@);
            },
        }
        chapters
    }

    /// The order of the volume that `chapter` belongs to, or 0 where there
    /// is no such volume.
    fn volume_order(&self, chapter: &Chapter) -> (order: usize)
        ensures
            order as nat == self@.volume_order_of(chapter@),
    {
        match self.find_volume(chapter.volume_id) {
            Some(v) => {
                assert(self@.volumes[v as int] == self.volumes@[v as int]@);
                self.volumes[v].order
            },
            None => 0,
        }
    }

    /// The numbers of the chapters in the index, each once, in no order in
    /// particular.
    pub fn chapter_numbers(&self) -> (numbers: Vec<u64>)
        ensures
            numbers@.no_duplicates(),
            numbers@.to_set() == self@.chapters.dom(),
    {
        broadcast use vstd::std_specs::hash::group_hash_axioms;

        let mut numbers: Vec<u64> = Vec::new();
        let ghost all = self.chapters.keys().remaining();
        for k in it: self.chapters.keys()
            invariant
                it.seq() == all,
                numbers@ == all.take(it.index() as int).unref(),
        {
            numbers.push(*k);
            assert(all.take(it.index() + 1).unref() =~= all.take(it.index() as int).unref().push(
                *k,
            ));
        }
        assert(all.take(all.len() as int) == all);
        assert(numbers@ == all.unref());
        assert(self@.chapters.dom() =~= self.chapters@.dom());
        numbers
    }

    /// All chapters of the index, ordered by their volume's order first and
    /// their own order second.  Chapters that are equal in both stand in no
    /// order in particular; in a consistent project there are none such, and
    /// the chapters come volume after volume, each volume's chapters in the
    /// order of its list.
    pub fn get_all_chapters_in_order(&self) -> (chapters: Vec<&Chapter>)
        ensures
            self@.lists_all_chapters(views(chapters@)),
            self@.is_in_reading_order(views(chapters@)),
            self@.consistent() ==> views(chapters@) == self@.by_volumes(),
    {
        broadcast use vstd::std_specs::hash::group_hash_axioms;

        let numbers = self.chapter_numbers();
        let mut chapters: Vec<&Chapter> = Vec::new();
        let mut volume_orders: Vec<usize> = Vec::new();
        let ghost mut keys: Seq<u64> = Seq::empty();
        let ghost index = self.chapters@;
        assert(self@.chapters.dom() =~= index.dom());
        assert(numbers@.take(0) =~= Seq::empty());
        assert(keys.to_set() =~= numbers@.take(0).to_set());
        let mut i: usize = 0;
        while i < numbers.len()
            invariant
                i <= numbers@.len(),
                index == self.chapters@,
                numbers@.no_duplicates(),
                numbers@.to_set() == index.dom(),
                keys.no_duplicates(),
                keys.to_set() == numbers@.take(i as int).to_set(),
                keys.len() == i,
                chapters@.len() == i,
                volume_orders@.len() == i,
                forall|x: int|
                    0 <= x < i ==> index.contains_key(#[trigger] keys[x]) && *chapters@[x]
                        == index[keys[x]],
                forall|x: int|
                    0 <= x < i ==> (#[trigger] volume_orders@[x]) as nat == self@.volume_order_of(
                        chapters@[x]@,
                    ),
                self@.is_in_reading_order(views(chapters@)),
            decreases numbers.len() - i,
        {
            let k = numbers[i];
            assert(numbers@.to_set().contains(k));
            assert(!numbers@.take(i as int).contains(k)) by {
                if numbers@.take(i as int).contains(k) {
                    let w = choose|w: int| 0 <= w < i && numbers@.take(i as int)[w] == k;
                    assert(numbers@[w] == numbers@[i as int]);
                }
            }
            assert(!keys.contains(k)) by {
                assert(keys.to_set().contains(k) == keys.contains(k));
                assert(numbers@.take(i as int).to_set().contains(k) == numbers@.take(
                    i as int,
                ).contains(k));
            }
            match self.chapters.get(&k) {
                None => {
                    assert(false);
                },
                Some(chapter) => {
                    let volume_order = self.volume_order(chapter);
                    let mut at: usize = chapters.len();
                    while at > 0 && (volume_orders[at - 1] > volume_order || (volume_orders[at - 1]
                        == volume_order && chapters[at - 1].order > chapter.order))
                        invariant
                            at <= i,
                            chapters@.len() == i,
                            volume_orders@.len() == i,
                            volume_order as nat == self@.volume_order_of(chapter@),
                            forall|x: int|
                                0 <= x < i ==> (#[trigger] volume_orders@[x]) as nat
                                    == self@.volume_order_of(chapters@[x]@),
                            forall|x: int|
                                at <= x < i ==> self@.in_reading_order(
                                    chapter@,
                                    #[trigger] chapters@[x]@,
                                ),
                        decreases at,
                    {
                        at = at - 1;
                    }
                    let ghost sorted = views(chapters@);
                    let ghost old_keys = keys;
                    let ghost old_chapters = chapters@;
                    let ghost old_orders = volume_orders@;
                    proof {
                        if at > 0 {
                            assert(self@.in_reading_order(chapters@[at - 1]@, chapter@));
                        }
                        assert forall|x: int| 0 <= x < at implies self@.in_reading_order(
                            #[trigger] sorted[x],
                            chapter@,
                        ) by {
                            if x < at - 1 {
                                assert(self@.in_reading_order(sorted[x], sorted[at - 1]));
                            }
                        }
                        keys = keys.insert(at as int, k);
                    }
                    chapters.insert(at, chapter);
                    volume_orders.insert(at, volume_order);
                    proof {
                        let listing = views(chapters@);
                        assert forall|x: int| 0 <= x < i + 1 implies index.contains_key(
                            #[trigger] keys[x],
                        ) && *chapters@[x] == index[keys[x]] by {
                            if x < at {
                                assert(keys[x] == old_keys[x]);
                                assert(chapters@[x] == old_chapters[x]);
                            } else if x > at {
                                assert(keys[x] == old_keys[x - 1]);
                                assert(chapters@[x] == old_chapters[x - 1]);
                            }
                        }
                        assert forall|x: int| 0 <= x < i + 1 implies (
                        #[trigger] volume_orders@[x]) as nat == self@.volume_order_of(
                            chapters@[x]@,
                        ) by {
                            if x < at {
                                assert(volume_orders@[x] == old_orders[x]);
                                assert(chapters@[x] == old_chapters[x]);
                            } else if x > at {
                                assert(volume_orders@[x] == old_orders[x - 1]);
                                assert(chapters@[x] == old_chapters[x - 1]);
                            }
                        }
                        assert forall|x: int, y: int|
                            0 <= x < y < listing.len() implies self@.in_reading_order(
                            listing[x],
                            listing[y],
                        ) by {
                            let a = if x < at {
                                sorted[x]
                            } else if x == at {
                                chapter@
                            } else {
                                sorted[x - 1]
                            };
                            let b = if y < at {
                                sorted[y]
                            } else if y == at {
                                chapter@
                            } else {
                                sorted[y - 1]
                            };
                            assert(listing[x] == a && listing[y] == b);
                            if x < at && y > at {
                                assert(self@.in_reading_order(sorted[x], sorted[y - 1]));
                            }
                            if x > at {
                                assert(self@.in_reading_order(sorted[x - 1], sorted[y - 1]));
                            }
                            if y < at {
                                assert(self@.in_reading_order(sorted[x], sorted[y]));
                            }
                            if x == at {
                                assert(self@.in_reading_order(chapter@, old_chapters[y - 1]@));
                            }
                        }
                        lemma_insert_fresh(old_keys, at as int, k);
                        lemma_take_set(numbers@, i as int);
                    }
                },
            }
            i = i + 1;
        }
        proof {
            assert(numbers@.take(numbers@.len() as int) == numbers@);
            let listing = views(chapters@);
            assert forall|x: int| 0 <= x < keys.len() implies listing[x] == self@.chapters[
            #[trigger] keys[x]] by {
                assert(index.contains_key(keys[x]) && *chapters@[x] == index[keys[x]]);
                assert(chapter_views(index)[keys[x]] == index[keys[x]]@);
            }
            assert(self@.lists_by(keys, listing));
            if self@.consistent() {
                lemma_by_volumes_is_reading_order(self@);
                lemma_reading_order_is_unique(self@, listing, self@.by_volumes());
            }
        }
        chapters
    }
}

/// Putting an element that a sequence without duplicates does not hold
/// into it gives a sequence without duplicates that holds this element
/// more.
pub proof fn lemma_insert_fresh<T>(s: Seq<T>, at: int, x: T)
    requires
        0 <= at <= s.len(),
        s.no_duplicates(),
        !s.contains(x),
    ensures
        s.insert(at, x).no_duplicates(),
        s.insert(at, x).to_set() == s.to_set().insert(x),
        s.insert(at, x).len() == s.len() + 1,
{
    let t = s.insert(at, x);
    assert forall|i: int| 0 <= i < t.len() implies #[trigger] t[i] == (if i < at {
        s[i]
    } else if i == at {
        x
    } else {
        s[i - 1]
    }) by {}
    assert forall|i: int, j: int| 0 <= i < t.len() && 0 <= j < t.len() && i != j implies t[i]
        != t[j] by {
        let si = if i < at { i } else { i - 1 };
        let sj = if j < at { j } else { j - 1 };
        if i != at && j != at {
            assert(s[si] != s[sj]);
        } else if i == at {
            assert(s[sj] != x);
        } else {
            assert(s[si] != x);
        }
    }
    assert forall|y: T| t.to_set().contains(y) == s.to_set().insert(x).contains(y) by {
        if t.contains(y) {
            let i = choose|i: int| 0 <= i < t.len() && t[i] == y;
            if i < at {
                assert(s[i] == y);
            } else if i > at {
                assert(s[i - 1] == y);
            }
        }
        if s.contains(y) {
            let i = choose|i: int| 0 <= i < s.len() && s[i] == y;
            if i < at {
                assert(t[i] == y);
            } else {
                assert(t[i + 1] == y);
            }
        }
        if y == x {
            assert(t[at] == y);
        }
    }
    assert(t.to_set() =~= s.to_set().insert(x));
}

/// The elements of a prefix that is longer by one are those of the prefix
/// and the element behind it.
pub proof fn lemma_take_set<T>(s: Seq<T>, n: int)
    requires
        0 <= n < s.len(),
    ensures
        s.take(n + 1).to_set() == s.take(n).to_set().insert(s[n]),
{
    let shorter = s.take(n);
    let longer = s.take(n + 1);
    assert forall|y: T| longer.to_set().contains(y) == shorter.to_set().insert(s[n]).contains(
        y,
    ) by {
        if longer.contains(y) {
            let i = choose|i: int| 0 <= i < longer.len() && longer[i] == y;
            if i < n {
                assert(shorter[i] == y);
            }
        }
        if shorter.contains(y) {
            let i = choose|i: int| 0 <= i < shorter.len() && shorter[i] == y;
            assert(longer[i] == y);
        }
        if y == s[n] {
            assert(longer[n] == y);
        }
    }
    assert(longer.to_set() =~= shorter.to_set().insert(s[n]));
}

} // verus!
