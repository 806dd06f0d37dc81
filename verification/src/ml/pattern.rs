//! Pattern recognition: a trie of the event sequences that have been
//! stored, and the model that looks recent events up in it.

use std::collections::{HashMap, VecDeque};
use vstd::prelude::*;
use crate::ml::context::{
    all_patterns, clone_events, event_data, event_views, fresh_pattern, insight_patterns,
    message_type_of, push_significant, significance_of, significant, Insight, MidiMessage,
    MidiMessageType, MusicalContext, Pattern, PatternView,
};
use crate::shared_buffer::{EventView, MidiEvent};

verus! {

broadcast use vstd::std_specs::hash::group_hash_axioms;

/// A node of the trie. The way to a node spells the bytes of the events of
/// a sequence, one event for each step.
#[derive(Debug)]
struct TrieNode {
    children: Vec<TrieChild>,
    is_pattern: bool,
    pattern_id: Option<u64>,
    count: u32,
}

/// A step from a node to one of its children, for an event with the bytes
/// `key`.
#[derive(Debug)]
struct TrieChild {
    key: Vec<u8>,
    node: TrieNode,
}

/// The index of the first child whose key is `key`.
spec fn child_index(children: Seq<TrieChild>, key: Seq<u8>) -> Option<int>
    decreases children.len(),
{
    if children.len() == 0 {
        None
    } else {
        match child_index(children.drop_last(), key) {
            Some(j) => Some(j),
            None => if children.last().key@ == key {
                Some(children.len() - 1)
            } else {
                None
            },
        }
    }
}

proof fn lemma_child_index(children: Seq<TrieChild>, key: Seq<u8>)
    ensures
        match child_index(children, key) {
            Some(j) => 0 <= j < children.len() && children[j].key@ == key && forall|i: int|
                0 <= i < j ==> (#[trigger] children[i]).key@ != key,
            None => forall|i: int| 0 <= i < children.len() ==> (#[trigger] children[i]).key@ != key,
        },
    decreases children.len(),
{
    if children.len() > 0 {
        let rest = children.drop_last();
        lemma_child_index(rest, key);
        assert forall|i: int| 0 <= i < rest.len() implies rest[i] == children[i] by {}
        match child_index(rest, key) {
            Some(j) => {
                assert(children[j] == rest[j]);
                assert forall|i: int| 0 <= i < j implies (#[trigger] children[i]).key@ != key by {
                    assert(rest[i] == children[i]);
                }
            },
            None => {
                assert forall|i: int| 0 <= i < rest.len() implies (#[trigger] children[i]).key@
                    != key by {
                    assert(rest[i] == children[i]);
                }
            },
        }
    }
}

/// The first child with a key is found by its properties.
proof fn lemma_child_index_is(children: Seq<TrieChild>, key: Seq<u8>, j: int)
    requires
        0 <= j < children.len(),
        children[j].key@ == key,
        forall|i: int| 0 <= i < j ==> (#[trigger] children[i]).key@ != key,
    ensures
        child_index(children, key) == Some(j),
{
    lemma_child_index(children, key);
}

/// No child has the key.
proof fn lemma_child_index_none(children: Seq<TrieChild>, key: Seq<u8>)
    requires
        forall|i: int| 0 <= i < children.len() ==> (#[trigger] children[i]).key@ != key,
    ensures
        child_index(children, key) is None,
{
    lemma_child_index(children, key);
}

fn same_bytes(a: &Vec<u8>, b: &Vec<u8>) -> (same: bool)
    ensures
        same == (a@ == b@),
{
    if a.len() != b.len() {
        return false;
    }
    let mut i: usize = 0;
    while i < a.len()
        invariant
            i <= a.len(),
            a.len() == b.len(),
            forall|j: int| 0 <= j < i ==> a@[j] == b@[j],
        decreases a.len() - i,
    {
        if a[i] != b[i] {
            return false;
        }
        i = i + 1;
    }
    proof {
        assert(a@ =~= b@);
    }
    true
}

fn copy_bytes(a: &Vec<u8>) -> (copy: Vec<u8>)
    ensures
        copy@ == a@,
{
    let mut copy: Vec<u8> = Vec::new();
    let mut i: usize = 0;
    while i < a.len()
        invariant
            i <= a.len(),
            copy@ == a@.take(i as int),
        decreases a.len() - i,
    {
        copy.push(a[i]);
        proof {
            assert(copy@ =~= a@.take(i + 1));
        }
        i = i + 1;
    }
    proof {
        assert(a@.take(i as int) =~= a@);
    }
    copy
}

impl TrieNode {
    /// The pattern that ends at this node, if one does.
    spec fn terminal_id(&self) -> Option<u64> {
        if self.is_pattern {
            self.pattern_id
        } else {
            None
        }
    }

    /// The node that the way `path` leads to from this node.
    spec fn reach(&self, path: Seq<Seq<u8>>) -> Option<TrieNode>
        decreases path.len(),
    {
        if path.len() == 0 {
            Some(*self)
        } else {
            match child_index(self.children@, path[0]) {
                Some(j) => self.children@[j].node.reach(path.drop_first()),
                None => None,
            }
        }
    }

    /// The pattern that is stored under the way `path` from this node.
    spec fn stored(&self, path: Seq<Seq<u8>>) -> Option<u64> {
        match self.reach(path) {
            Some(node) => node.terminal_id(),
            None => None,
        }
    }

    /// A node without children at which no pattern ends.
    fn new() -> (node: Self)
        ensures
            node.children@.len() == 0,
            !node.is_pattern,
            node.pattern_id is None,
            node.count == 0,
            forall|path: Seq<Seq<u8>>| node.stored(path) is None,
    {
        let node = TrieNode { children: Vec::new(), is_pattern: false, pattern_id: None, count: 0 };
        proof {
            assert forall|path: Seq<Seq<u8>>| node.stored(path) is None by {
                if path.len() > 0 {
                    assert(child_index(node.children@, path[0]) is None);
                }
            }
        }
        node
    }

    /// The first child for an event with the bytes `key`.
    fn find_child(&self, key: &Vec<u8>) -> (found: Option<usize>)
        ensures
            match found {
                Some(j) => child_index(self.children@, key@) == Some(j as int) && j
                    < self.children@.len(),
                None => child_index(self.children@, key@) is None,
            },
    {
        let mut i: usize = 0;
        while i < self.children.len()
            invariant
                i <= self.children.len(),
                forall|j: int| 0 <= j < i ==> (#[trigger] self.children@[j]).key@ != key@,
            decreases self.children.len() - i,
        {
            if same_bytes(&self.children[i].key, key) {
                proof {
                    lemma_child_index_is(self.children@, key@, i as int);
                }
                return Some(i);
            }
            i = i + 1;
        }
        proof {
            lemma_child_index_none(self.children@, key@);
        }
        None
    }
}

/// The bytes of the events of `events` from the index `from` on.
spec fn tail_data(events: Seq<MidiEvent>, from: int) -> Seq<Seq<u8>> {
    Seq::new((events.len() - from) as nat, |i: int| events[from + i].data@)
}

/// Stores the way that the events from `from` on spell, and ends the pattern
/// `id` at its last node. Ways that were stored before stay as they were.
fn insert_path(node: &mut TrieNode, events: &[MidiEvent], from: usize, id: u64)
    requires
        from <= events.len(),
    ensures
        forall|path: Seq<Seq<u8>>|
            #[trigger] final(node).stored(path) == (if path == tail_data(events@, from as int) {
                Some(id)
            } else {
                old(node).stored(path)
            }),
    decreases events.len() - from,
{
    let ghost before = *node;
    let ghost tail = tail_data(events@, from as int);
    if from == events.len() {
        node.is_pattern = true;
        node.pattern_id = Some(id);
        if node.count < u32::MAX {
            node.count = node.count + 1;
        }
        proof {
            assert(tail.len() == 0);
            assert forall|path: Seq<Seq<u8>>| #[trigger] node.stored(path) == (if path == tail {
                Some(id)
            } else {
                before.stored(path)
            }) by {
                if path.len() == 0 {
                    assert(path =~= tail);
                } else {
                    assert(node.children@ == before.children@);
                }
            }
        }
        return ;
    }
    let key = &events[from].data;
    let found = node.find_child(key);
    let j = match found {
        Some(j) => j,
        None => {
            node.children.push(TrieChild { key: copy_bytes(key), node: TrieNode::new() });
            node.children.len() - 1
        },
    };
    let ghost middle = *node;
    proof {
        lemma_child_index(before.children@, key@);
        if found is None {
            assert(middle.children@.drop_last() =~= before.children@);
            assert forall|i: int| 0 <= i < j implies (#[trigger] middle.children@[i]).key@
                != key@ by {
                assert(middle.children@[i] == before.children@[i]);
            }
        }
        lemma_child_index_is(middle.children@, key@, j as int);
    }
    insert_path(&mut node.children[j].node, events, from + 1, id);
    proof {
        let rest = tail_data(events@, from + 1);
        let child = node.children@[j as int].node;
        let child_before = middle.children@[j as int].node;
        assert(tail.len() > 0);
        assert(tail[0] == key@);
        assert(tail.drop_first() =~= rest);
        assert(node.children@.len() == middle.children@.len());
        assert(node.children@[j as int].key@ == key@);
        assert forall|i: int| 0 <= i < node.children@.len() && i != j implies node.children@[i]
            == middle.children@[i] by {}
        assert forall|path: Seq<Seq<u8>>| #[trigger] node.stored(path) == (if path == tail {
            Some(id)
        } else {
            before.stored(path)
        }) by {
            if path.len() == 0 {
                assert(path != tail);
                assert(node.stored(path) == before.stored(path));
            } else {
                let step = path[0];
                let more = path.drop_first();
                lemma_child_index(node.children@, step);
                lemma_child_index(middle.children@, step);
                lemma_child_index(before.children@, step);
                if step == key@ {
                    lemma_child_index_is(node.children@, step, j as int);
                    assert(node.stored(path) == child.stored(more));
                    assert(child.stored(more) == (if more == rest {
                        Some(id)
                    } else {
                        child_before.stored(more)
                    }));
                    if found is None {
                        assert(child_before.stored(more) is None);
                        assert(before.stored(path) is None);
                    } else {
                        assert(before.stored(path) == child_before.stored(more));
                    }
                    if more == rest {
                        lemma_same_head_and_tail(path, tail);
                    } else {
                        assert(path != tail);
                    }
                } else {
                    assert(path != tail);
                    match child_index(before.children@, step) {
                        Some(k) => {
                            assert(middle.children@[k] == before.children@[k]);
                            lemma_child_index_is(middle.children@, step, k);
                            lemma_child_index_is(node.children@, step, k);
                            assert(node.children@[k] == middle.children@[k]);
                            assert(node.stored(path) == node.children@[k].node.stored(more));
                            assert(before.stored(path) == before.children@[k].node.stored(more));
                        },
                        None => {
                            lemma_child_index_none(middle.children@, step);
                            lemma_child_index_none(node.children@, step);
                            assert(node.stored(path) is None);
                            assert(before.stored(path) is None);
                        },
                    }
                }
            }
        }
    }
}

/// Sequences with the same first element and the same rest are the same.
proof fn lemma_same_head_and_tail<T>(a: Seq<T>, b: Seq<T>)
    requires
        a.len() > 0,
        b.len() > 0,
        a[0] == b[0],
        a.drop_first() == b.drop_first(),
    ensures
        a == b,
{
    assert(a.drop_first().len() == a.len() - 1);
    assert(b.drop_first().len() == b.len() - 1);
    assert forall|i: int| 0 <= i < a.len() implies a[i] == b[i] by {
        if i > 0 {
            assert(a.drop_first()[i - 1] == a[i]);
            assert(b.drop_first()[i - 1] == b[i]);
        }
    }
    assert(a =~= b);
}

/// The way that ends one step after `path` leads to the child for that step
/// of the node that `path` leads to, if there is such a node and such a
/// child.
proof fn lemma_reach_push(root: TrieNode, path: Seq<Seq<u8>>, key: Seq<u8>)
    ensures
        root.reach(path.push(key)) == (match root.reach(path) {
            Some(node) => match child_index(node.children@, key) {
                Some(j) => Some(node.children@[j].node),
                None => None,
            },
            None => None,
        }),
    decreases path.len(),
{
    let longer = path.push(key);
    if path.len() == 0 {
        assert(longer[0] == key);
        assert(longer.drop_first().len() == 0);
        match child_index(root.children@, key) {
            Some(j) => {
                assert(root.children@[j].node.reach(longer.drop_first()) == Some(
                    root.children@[j].node,
                ));
            },
            None => {},
        }
    } else {
        assert(longer[0] == path[0]);
        assert(longer.drop_first() =~= path.drop_first().push(key));
        match child_index(root.children@, path[0]) {
            Some(j) => {
                lemma_reach_push(root.children@[j].node, path.drop_first(), key);
            },
            None => {},
        }
    }
}

/// Where the way to `middle` events is a dead end, so is every longer way.
proof fn lemma_dead_end(root: TrieNode, datas: Seq<Seq<u8>>, start: int, middle: int, end: int)
    requires
        0 <= start <= middle <= end <= datas.len(),
        root.reach(datas.subrange(start, middle)) is None,
    ensures
        root.reach(datas.subrange(start, end)) is None,
    decreases end - middle,
{
    if middle < end {
        lemma_dead_end(root, datas, start, middle, end - 1);
        assert(datas.subrange(start, end) =~= datas.subrange(start, end - 1).push(datas[end - 1]));
        lemma_reach_push(root, datas.subrange(start, end - 1), datas[end - 1]);
    }
}

/// A pattern that has been seen once more. The count stops at its largest
/// value.
pub open spec fn seen_again(p: PatternView) -> PatternView {
    let count = if p.occurrence_count < u32::MAX {
        (p.occurrence_count + 1) as u32
    } else {
        u32::MAX
    };
    PatternView { occurrence_count: count, significance_score: significance_of(count), ..p }
}

/// What a trie knows: the identifier stored under each sequence of event
/// bytes, and the pattern known under each identifier.
pub struct TrieView {
    pub ids: Map<Seq<Seq<u8>>, u64>,
    pub patterns: Map<u64, PatternView>,
}

impl TrieView {
    /// The trie after `events` have been added under the identifier `id`.
    /// No events change nothing; a known identifier is seen again; a new one
    /// is stored under the bytes of the events with a fresh pattern.
    pub open spec fn add(self, events: Seq<EventView>, id: u64) -> TrieView {
        if events.len() == 0 {
            self
        } else if self.patterns.contains_key(id) {
            TrieView { ids: self.ids, patterns: self.patterns.insert(id, seen_again(self.patterns[id])) }
        } else {
            TrieView {
                ids: self.ids.insert(event_data(events), id),
                patterns: self.patterns.insert(id, fresh_pattern(events, id)),
            }
        }
    }

    /// The pattern stored under `path`, if an identifier is stored under it
    /// and a pattern is known under that identifier.
    pub open spec fn hit(self, path: Seq<Seq<u8>>) -> Seq<PatternView> {
        if self.ids.contains_key(path) && self.patterns.contains_key(self.ids[path]) {
            seq![self.patterns[self.ids[path]]]
        } else {
            Seq::empty()
        }
    }

    /// The patterns stored under the runs of `datas` that begin at `start`
    /// and end at or before `end`, shortest run first.
    pub open spec fn matches_from(self, datas: Seq<Seq<u8>>, start: int, end: int) -> Seq<
        PatternView,
    >
        decreases end - start,
    {
        if end <= start {
            Seq::empty()
        } else {
            self.matches_from(datas, start, end - 1) + self.hit(datas.subrange(start, end))
        }
    }

    /// The patterns stored under the runs of `datas` that begin before
    /// `starts`, earliest beginning first.
    pub open spec fn matches_upto(self, datas: Seq<Seq<u8>>, starts: nat) -> Seq<PatternView>
        decreases starts,
    {
        if starts == 0 {
            Seq::empty()
        } else {
            self.matches_upto(datas, (starts - 1) as nat) + self.matches_from(
                datas,
                starts - 1,
                datas.len() as int,
            )
        }
    }

    /// The patterns stored under the runs of `datas`.
    pub open spec fn matches(self, datas: Seq<Seq<u8>>) -> Seq<PatternView> {
        self.matches_upto(datas, datas.len())
    }
}

/// The views of a run of patterns.
pub open spec fn pattern_views(patterns: Seq<Pattern>) -> Seq<PatternView> {
    Seq::new(patterns.len(), |i: int| patterns[i]@)
}

/// The views of the patterns of a map.
pub open spec fn pattern_map(patterns: Map<u64, Pattern>) -> Map<u64, PatternView> {
    patterns.map_values(|p: Pattern| p@)
}

/// A trie of the event sequences that have been stored, with the pattern of
/// each.
#[derive(Debug)]
pub struct PatternTrie {
    root: TrieNode,
    patterns: HashMap<u64, Pattern>,
}

impl View for PatternTrie {
    type V = TrieView;

    closed spec fn view(&self) -> TrieView {
        TrieView {
            ids: Map::new(
                |path: Seq<Seq<u8>>| self.root.stored(path) is Some,
                |path: Seq<Seq<u8>>| self.root.stored(path)->0,
            ),
            patterns: pattern_map(self.patterns@),
        }
    }
}

impl PatternTrie {
    /// A trie that stores nothing.
    pub fn new() -> (trie: Self)
        ensures
            trie@.ids == Map::<Seq<Seq<u8>>, u64>::empty(),
            trie@.patterns == Map::<u64, PatternView>::empty(),
    {
        let trie = PatternTrie { root: TrieNode::new(), patterns: HashMap::new() };
        proof {
            assert(trie@.ids =~= Map::<Seq<Seq<u8>>, u64>::empty());
            assert(trie@.patterns =~= Map::<u64, PatternView>::empty());
        }
        trie
    }

    /// Adds a sequence of events under the hash of their bytes.
    pub fn add_sequence(&mut self, events: &[MidiEvent])
        ensures
            events@.len() == 0 ==> final(self)@ == old(self)@,
            events@.len() > 0 ==> exists|id: u64|
                final(self)@ == #[trigger] old(self)@.add(event_views(events@), id),
    {
        if events.len() == 0 {
            return ;
        }
        let pattern = Pattern::new(clone_events(events));
        let id = pattern.id;
        self.add_pattern(events, pattern);
        proof {
            assert(final(self)@ == old(self)@.add(event_views(events@), id));
        }
    }

    /// Adds a sequence of events under the identifier `id`.
    pub fn add_sequence_with_id(&mut self, events: &[MidiEvent], id: u64)
        ensures
            final(self)@ == old(self)@.add(event_views(events@), id),
    {
        if events.len() == 0 {
            return ;
        }
        let pattern = Pattern::with_id(clone_events(events), id);
        self.add_pattern(events, pattern);
    }

    fn add_pattern(&mut self, events: &[MidiEvent], pattern: Pattern)
        requires
            events@.len() > 0,
            pattern@ == fresh_pattern(event_views(events@), pattern.id),
        ensures
            final(self)@ == old(self)@.add(event_views(events@), pattern.id),
    {
        let id = pattern.id;
        let ghost before = self@;
        let ghost known = self.patterns@;
        match self.patterns.remove(&id) {
            Some(mut existing) => {
                if existing.occurrence_count < u32::MAX {
                    existing.occurrence_count = existing.occurrence_count + 1;
                }
                existing.significance_score = if existing.occurrence_count < 10 {
                    existing.occurrence_count as u8
                } else {
                    10
                };
                self.patterns.insert(id, existing);
                proof {
                    assert(existing@ == seen_again(known[id]@));
                    assert(self.patterns@ =~= known.insert(id, existing));
                    assert(pattern_map(self.patterns@) =~= pattern_map(known).insert(
                        id,
                        existing@,
                    ));
                }
            },
            None => {
                self.patterns.insert(id, pattern);
                insert_path(&mut self.root, events, 0, id);
                proof {
                    assert(self.patterns@ =~= known.insert(id, pattern));
                    assert(pattern_map(self.patterns@) =~= pattern_map(known).insert(id, pattern@));
                    assert(tail_data(events@, 0) =~= event_data(event_views(events@)));
                    assert(self@.ids =~= before.ids.insert(event_data(event_views(events@)), id));
                }
            },
        }
    }

    /// Appends to `found` the patterns stored under the runs of `events`
    /// that begin at `start`.
    fn collect_from(&self, events: &[MidiEvent], start: usize, found: &mut Vec<Pattern>)
        requires
            start < events@.len(),
        ensures
            pattern_views(final(found)@) == pattern_views(old(found)@) + self@.matches_from(
                event_data(event_views(events@)),
                start as int,
                events@.len() as int,
            ),
    {
        let ghost datas = event_data(event_views(events@));
        let ghost view = self@;
        let ghost first = pattern_views(found@);
        let mut current = &self.root;
        let mut i: usize = start;
        proof {
            assert(datas.subrange(start as int, start as int).len() == 0);
            assert(first + view.matches_from(datas, start as int, start as int) =~= first);
        }
        while i < events.len()
            invariant
                start <= i <= events.len(),
                datas == event_data(event_views(events@)),
                view == self@,
                first == pattern_views(old(found)@),
                self.root.reach(datas.subrange(start as int, i as int)) == Some(*current),
                pattern_views(found@) == first + view.matches_from(datas, start as int, i as int),
            decreases events.len() - i,
        {
            let ghost path = datas.subrange(start as int, i as int);
            let ghost longer = datas.subrange(start as int, i + 1);
            proof {
                assert(datas[i as int] == events@[i as int].data@);
                assert(longer =~= path.push(datas[i as int]));
                lemma_reach_push(self.root, path, datas[i as int]);
            }
            match current.find_child(&events[i].data) {
                Some(j) => {
                    current = &current.children[j].node;
                    let ghost before = found@;
                    if current.is_pattern {
                        if let Some(id) = current.pattern_id {
                            if let Some(pattern) = self.patterns.get(&id) {
                                found.push(pattern.clone());
                                proof {
                                    assert(pattern_views(found@) =~= pattern_views(before).push(
                                        pattern@,
                                    ));
                                }
                            }
                        }
                    }
                    proof {
                        assert(self.root.stored(longer) == current.terminal_id());
                        assert(pattern_views(found@) =~= pattern_views(before) + view.hit(longer));
                        assert(view.matches_from(datas, start as int, i + 1)
                            == view.matches_from(datas, start as int, i as int) + view.hit(
                            longer,
                        ));
                        assert(pattern_views(found@) =~= first + view.matches_from(
                            datas,
                            start as int,
                            i + 1,
                        ));
                    }
                    i = i + 1;
                },
                None => {
                    proof {
                        lemma_no_more_matches(
                            self.root,
                            view,
                            datas,
                            start as int,
                            i as int,
                            events@.len() as int,
                        );
                    }
                    return ;
                },
            }
        }
    }

    /// The patterns stored under the runs of `events`: for each beginning in
    /// turn, those of the runs that begin there, shortest run first.
    pub fn find_patterns(&self, events: &[MidiEvent]) -> (found: Vec<Pattern>)
        ensures
            pattern_views(found@) == self@.matches(event_data(event_views(events@))),
    {
        let ghost datas = event_data(event_views(events@));
        let mut found: Vec<Pattern> = Vec::new();
        let mut start: usize = 0;
        proof {
            assert(pattern_views(found@) =~= self@.matches_upto(datas, 0));
        }
        while start < events.len()
            invariant
                start <= events.len(),
                datas == event_data(event_views(events@)),
                pattern_views(found@) == self@.matches_upto(datas, start as nat),
            decreases events.len() - start,
        {
            self.collect_from(events, start, &mut found);
            start = start + 1;
        }
        found
    }
}

/// Past a dead end no run matches: the matches up to `end` are those up to
/// `middle`.
proof fn lemma_no_more_matches(
    root: TrieNode,
    view: TrieView,
    datas: Seq<Seq<u8>>,
    start: int,
    middle: int,
    end: int,
)
    requires
        0 <= start <= middle < end <= datas.len(),
        root.reach(datas.subrange(start, middle + 1)) is None,
        forall|path: Seq<Seq<u8>>| #[trigger] view.ids.contains_key(path) == (root.stored(path) is Some),
    ensures
        view.matches_from(datas, start, end) == view.matches_from(datas, start, middle),
    decreases end - middle,
{
    lemma_dead_end(root, datas, start, middle + 1, end);
    assert(!view.ids.contains_key(datas.subrange(start, end)));
    if middle + 1 < end {
        lemma_no_more_matches(root, view, datas, start, middle, end - 1);
    }
    assert(view.matches_from(datas, start, end) =~= view.matches_from(datas, start, end - 1));
}

/// The most events that the model keeps as its current sequence.
pub const SEQUENCE_WINDOW: usize = 100;

/// Whether a message is a note-on or a note-off.
pub open spec fn is_note_message(message: MidiMessage) -> bool {
    message is NoteOn || message is NoteOff
}

/// The note-on and note-off messages of a run, in order.
pub open spec fn note_messages(messages: Seq<MidiMessage>) -> Seq<MidiMessage> {
    messages.filter(|m: MidiMessage| is_note_message(m))
}

/// Whether an event holds a note-on or a note-off.
pub open spec fn is_note_event(event: EventView) -> bool {
    message_type_of(event.data) == MidiMessageType::NoteOn || message_type_of(event.data)
        == MidiMessageType::NoteOff
}

/// What pattern detection leaves: one pattern without events.
pub open spec fn single_empty_pattern(patterns: Seq<PatternView>) -> bool {
    patterns.len() == 1 && patterns[0] == fresh_pattern(Seq::empty(), patterns[0].id)
}

/// A sequence with one more event at its end, and without its first event
/// if it has grown past `limit`.
pub open spec fn slide<T>(s: Seq<T>, item: T, limit: nat) -> Seq<T> {
    if s.len() + 1 > limit {
        s.push(item).drop_first()
    } else {
        s.push(item)
    }
}

/// What the pattern recognition model knows.
pub struct RecognitionView {
    pub min_pattern_length: usize,
    pub max_pattern_length: usize,
    pub patterns: Seq<PatternView>,
    pub recent_notes: Seq<MidiMessage>,
    pub current_sequence: Seq<EventView>,
    pub trie: TrieView,
}

impl RecognitionView {
    /// Whether the model after an event is `after`. A note event joins the
    /// current sequence, which slides along once it is full, and pattern
    /// detection runs; any other event changes nothing.
    pub open spec fn process_event(self, event: EventView, after: RecognitionView) -> bool {
        if is_note_event(event) {
            &&& after.min_pattern_length == self.min_pattern_length
            &&& after.max_pattern_length == self.max_pattern_length
            &&& single_empty_pattern(after.patterns)
            &&& after.recent_notes == self.recent_notes
            &&& after.current_sequence == slide(
                self.current_sequence,
                event,
                SEQUENCE_WINDOW as nat,
            )
            &&& after.trie == self.trie
        } else {
            after == self
        }
    }

    /// The patterns of the insights of the model: the significant ones among
    /// those stored under the runs of the current sequence.
    pub open spec fn insights(self) -> Seq<PatternView> {
        significant(self.trie.matches(event_data(self.current_sequence)))
    }
}

/// A model that recognises stored patterns in the stream of note events.
#[derive(Debug)]
pub struct PatternRecognitionModel {
    min_pattern_length: usize,
    max_pattern_length: usize,
    patterns: Vec<Pattern>,
    recent_notes: VecDeque<MidiMessage>,
    current_sequence: VecDeque<MidiEvent>,
    trie: PatternTrie,
}

impl View for PatternRecognitionModel {
    type V = RecognitionView;

    closed spec fn view(&self) -> RecognitionView {
        RecognitionView {
            min_pattern_length: self.min_pattern_length,
            max_pattern_length: self.max_pattern_length,
            patterns: pattern_views(self.patterns@),
            recent_notes: self.recent_notes@,
            current_sequence: event_views(self.current_sequence@),
            trie: self.trie@,
        }
    }
}

impl PatternRecognitionModel {
    /// A model that has seen nothing, for patterns of 3 to 16 events.
    pub fn new() -> (model: Self)
        ensures
            model@ == (RecognitionView {
                min_pattern_length: 3,
                max_pattern_length: 16,
                patterns: Seq::empty(),
                recent_notes: Seq::empty(),
                current_sequence: Seq::empty(),
                trie: TrieView { ids: Map::empty(), patterns: Map::empty() },
            }),
    {
        let model = PatternRecognitionModel {
            min_pattern_length: 3,
            max_pattern_length: 16,
            patterns: Vec::new(),
            recent_notes: VecDeque::new(),
            current_sequence: VecDeque::new(),
            trie: PatternTrie::new(),
        };
        proof {
            assert(model@.patterns =~= Seq::<PatternView>::empty());
            assert(model@.current_sequence =~= Seq::<EventView>::empty());
        }
        model
    }

    /// Takes the note messages of a context as the recent notes and runs
    /// pattern detection.
    pub fn update(&mut self, context: &MusicalContext)
        ensures
            final(self)@.recent_notes == note_messages(context@.messages),
            single_empty_pattern(final(self)@.patterns),
            final(self)@.min_pattern_length == old(self)@.min_pattern_length,
            final(self)@.max_pattern_length == old(self)@.max_pattern_length,
            final(self)@.current_sequence == old(self)@.current_sequence,
            final(self)@.trie == old(self)@.trie,
    {
        let messages = context.messages();
        let ghost keep = |m: MidiMessage| is_note_message(m);
        self.recent_notes.clear();
        let mut i: usize = 0;
        proof {
            assert(messages@.take(0) =~= Seq::<MidiMessage>::empty());
            assert(self.recent_notes@ =~= messages@.take(0).filter(keep));
        }
        while i < messages.len()
            invariant
                i <= messages.len(),
                keep == |m: MidiMessage| is_note_message(m),
                self.recent_notes@ == messages@.take(i as int).filter(keep),
                self.min_pattern_length == old(self).min_pattern_length,
                self.max_pattern_length == old(self).max_pattern_length,
                self.current_sequence == old(self).current_sequence,
                self.trie == old(self).trie,
            decreases messages.len() - i,
        {
            proof {
                assert(messages@.take(i + 1).drop_last() =~= messages@.take(i as int));
                assert(messages@.take(i + 1).last() == messages@[i as int]);
                reveal(Seq::filter);
            }
            let message = messages[i];
            match message {
                MidiMessage::NoteOn { .. } => {
                    self.recent_notes.push_back(message);
                },
                MidiMessage::NoteOff { .. } => {
                    self.recent_notes.push_back(message);
                },
                _ => {},
            }
            i = i + 1;
        }
        proof {
            assert(messages@.take(i as int) =~= messages@);
        }
        self.detect_patterns();
    }

    /// Detects patterns in the recent notes: it leaves one pattern without
    /// events.
    fn detect_patterns(&mut self)
        ensures
            single_empty_pattern(final(self)@.patterns),
            final(self)@.min_pattern_length == old(self)@.min_pattern_length,
            final(self)@.max_pattern_length == old(self)@.max_pattern_length,
            final(self)@.recent_notes == old(self)@.recent_notes,
            final(self)@.current_sequence == old(self)@.current_sequence,
            final(self)@.trie == old(self)@.trie,
    {
        self.patterns.clear();
        let events: Vec<MidiEvent> = Vec::new();
        let pattern = Pattern::new(events);
        proof {
            assert(pattern@.events =~= Seq::<EventView>::empty());
        }
        self.patterns.push(pattern);
    }

    /// The patterns that detection has left.
    pub fn patterns(&self) -> (patterns: &[Pattern])
        ensures
            pattern_views(patterns@) == self@.patterns,
    {
        self.patterns.as_slice()
    }

    /// Sets the least length of a pattern.
    pub fn set_min_pattern_length(&mut self, length: usize)
        ensures
            final(self)@ == (RecognitionView { min_pattern_length: length, ..old(self)@ }),
    {
        self.min_pattern_length = length;
    }

    /// Sets the greatest length of a pattern.
    pub fn set_max_pattern_length(&mut self, length: usize)
        ensures
            final(self)@ == (RecognitionView { max_pattern_length: length, ..old(self)@ }),
    {
        self.max_pattern_length = length;
    }

    /// Takes one event. Only note events count.
    pub fn process_event(&mut self, event: &MidiEvent, _context: &MusicalContext)
        ensures
            old(self)@.process_event(event@, final(self)@),
    {
        let message_type = MusicalContext::get_message_type(event);
        match message_type {
            MidiMessageType::NoteOn | MidiMessageType::NoteOff => {
                let ghost before = self.current_sequence@;
                self.current_sequence.push_back(event.clone());
                if self.current_sequence.len() > SEQUENCE_WINDOW {
                    self.current_sequence.pop_front();
                }
                proof {
                    assert(event_views(self.current_sequence@) =~= slide(
                        event_views(before),
                        event@,
                        SEQUENCE_WINDOW as nat,
                    ));
                }
                self.detect_patterns();
            },
            _ => {},
        }
    }

    /// The insights of the model: the significant patterns that are stored
    /// under a run of the current sequence.
    pub fn generate_insights(&self, _context: &MusicalContext) -> (insights: Vec<Insight>)
        ensures
            all_patterns(insights@),
            insight_patterns(insights@) == self@.insights(),
    {
        let mut events: Vec<MidiEvent> = Vec::new();
        let mut i: usize = 0;
        while i < self.current_sequence.len()
            invariant
                i <= self.current_sequence.len(),
                events@.len() == i,
                forall|j: int| 0 <= j < i ==> events@[j]@ == self.current_sequence@[j]@,
            decreases self.current_sequence.len() - i,
        {
            events.push(self.current_sequence[i].clone());
            i = i + 1;
        }
        proof {
            assert(event_views(events@) =~= event_views(self.current_sequence@));
        }
        let patterns = self.trie.find_patterns(events.as_slice());
        let mut insights: Vec<Insight> = Vec::new();
        proof {
            assert(insight_patterns(insights@) =~= Seq::<PatternView>::empty());
        }
        push_significant(&mut insights, &patterns);
        proof {
            assert(Seq::new(patterns@.len(), |i: int| patterns@[i]@) =~= pattern_views(patterns@));
            assert(Seq::<PatternView>::empty() + self@.insights() =~= self@.insights());
        }
        insights
    }
}

} // verus!
