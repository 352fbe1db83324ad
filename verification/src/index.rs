//! The rule index: from each canonical antecedent to the set of its consequents.

use vstd::prelude::*;
use crate::canonical::{normalize, normalized};
use crate::text::{clone_names, holds_name, same_names, texts};

verus! {

/// One association rule as the rules file records it. The file also carries a
/// confidence and a lift for each rule; the index has no use for them.
#[derive(Clone, Debug, PartialEq, Eq)]
pub struct RuleRecord {
    pub antecedent: Vec<String>,
    pub consequent: String,
}

/// What a `RuleRecord` says: its antecedent, in the order given, and its consequent.
pub struct RuleView {
    pub antecedent: Seq<Seq<char>>,
    pub consequent: Seq<char>,
}

impl View for RuleRecord {
    type V = RuleView;

    open spec fn view(&self) -> RuleView {
        RuleView { antecedent: texts(self.antecedent@), consequent: self.consequent@ }
    }
}

/// The views of a list of records, position by position.
pub open spec fn rule_views(rules: Seq<RuleRecord>) -> Seq<RuleView> {
    rules.map_values(|r: RuleRecord| r@)
}

/// The index that a list of rules stands for: its keys are the canonical forms
/// of the antecedents, and each key leads to the consequents of all the rules
/// with that antecedent.
pub open spec fn rules_map(rules: Seq<RuleView>) -> Map<Seq<Seq<char>>, Set<Seq<char>>> {
    Map::new(
        |key: Seq<Seq<char>>|
            exists|i: int|
                #![trigger rules[i]]
                0 <= i < rules.len() && normalized(rules[i].antecedent) == key,
        |key: Seq<Seq<char>>|
            Set::new(
                |song: Seq<char>|
                    exists|i: int|
                        #![trigger rules[i]]
                        0 <= i < rules.len() && normalized(rules[i].antecedent) == key
                            && rules[i].consequent == song,
            ),
    )
}

/// `m` with one more rule: `song` joins the consequents of `key`.
pub open spec fn with_rule(
    m: Map<Seq<Seq<char>>, Set<Seq<char>>>,
    key: Seq<Seq<char>>,
    song: Seq<char>,
) -> Map<Seq<Seq<char>>, Set<Seq<char>>> {
    m.insert(
        key,
        if m.dom().contains(key) {
            m[key].insert(song)
        } else {
            set![song]
        },
    )
}

/// The index of no rules is empty.
pub proof fn lemma_rules_map_empty()
    ensures
        rules_map(Seq::<RuleView>::empty()) == Map::<Seq<Seq<char>>, Set<Seq<char>>>::empty(),
{
    assert(rules_map(Seq::<RuleView>::empty()) =~= Map::<Seq<Seq<char>>, Set<Seq<char>>>::empty());
}

/// Indexing one more rule adds its consequent under its canonical antecedent
/// and changes nothing else.
pub proof fn lemma_rules_map_push(rules: Seq<RuleView>, r: RuleView)
    ensures
        rules_map(rules.push(r)) == with_rule(
            rules_map(rules),
            normalized(r.antecedent),
            r.consequent,
        ),
{
    let more = rules.push(r);
    let key = normalized(r.antecedent);
    let a = rules_map(more);
    let b = with_rule(rules_map(rules), key, r.consequent);
    assert(more[rules.len() as int] == r);
    assert forall|k: Seq<Seq<char>>| a.dom().contains(k) <==> b.dom().contains(k) by {
        if a.dom().contains(k) {
            let i = choose|i: int|
                #![trigger more[i]]
                0 <= i < more.len() && normalized(more[i].antecedent) == k;
            if i < rules.len() {
                assert(more[i] == rules[i]);
            }
        }
        if rules_map(rules).dom().contains(k) {
            let i = choose|i: int|
                #![trigger rules[i]]
                0 <= i < rules.len() && normalized(rules[i].antecedent) == k;
            assert(more[i] == rules[i]);
        }
    }
    assert forall|k: Seq<Seq<char>>| a.dom().contains(k) implies a[k] =~= b[k] by {
        assert forall|song: Seq<char>| a[k].contains(song) <==> b[k].contains(song) by {
            if a[k].contains(song) {
                let i = choose|i: int|
                    #![trigger more[i]]
                    0 <= i < more.len() && normalized(more[i].antecedent) == k
                        && more[i].consequent == song;
                if i < rules.len() {
                    assert(more[i] == rules[i]);
                    assert(rules_map(rules).dom().contains(k));
                    assert(rules_map(rules)[k].contains(song));
                }
            }
            if b[k].contains(song) {
                if k == key && song == r.consequent {
                    assert(more[rules.len() as int] == r);
                } else {
                    assert(rules_map(rules).dom().contains(k));
                    assert(rules_map(rules)[k].contains(song));
                    let i = choose|i: int|
                        #![trigger rules[i]]
                        0 <= i < rules.len() && normalized(rules[i].antecedent) == k
                            && rules[i].consequent == song;
                    assert(more[i] == rules[i]);
                }
            }
        }
    }
    assert(a =~= b);
}

/// Every key of an index is in canonical form, and leads to a finite set with
/// at least one consequent.
pub proof fn lemma_rules_map_shape(rules: Seq<RuleView>, key: Seq<Seq<char>>)
    requires
        rules_map(rules).dom().contains(key),
    ensures
        key == normalized(key),
        rules_map(rules)[key].finite(),
        rules_map(rules)[key].len() > 0,
    decreases rules.len(),
{
    let last = rules.last();
    let front = rules.drop_last();
    assert(rules =~= front.push(last));
    lemma_rules_map_push(front, last);
    let k = normalized(last.antecedent);
    if front.len() > 0 && rules_map(front).dom().contains(key) {
        lemma_rules_map_shape(front, key);
    }
    if key == k {
        let i = choose|i: int|
            #![trigger rules[i]]
            0 <= i < rules.len() && normalized(rules[i].antecedent) == key;
        crate::canonical::lemma_normalized_idempotent(rules[i].antecedent);
    } else {
        assert(rules_map(front).dom().contains(key));
        assert(front.len() > 0) by {
            if front.len() == 0 {
                assert(front =~= Seq::<RuleView>::empty());
                lemma_rules_map_empty();
            }
        }
    }
}

#[derive(Debug)]
struct Entry {
    key: Vec<String>,
    songs: Vec<String>,
}

struct EntryView {
    key: Seq<Seq<char>>,
    songs: Seq<Seq<char>>,
}

impl View for Entry {
    type V = EntryView;

    closed spec fn view(&self) -> EntryView {
        EntryView { key: texts(self.key@), songs: texts(self.songs@) }
    }
}

spec fn entry_views(entries: Seq<Entry>) -> Seq<EntryView> {
    entries.map_values(|e: Entry| e@)
}

/// No key occurs twice, and within an entry no song does.
spec fn entries_wf(es: Seq<EntryView>) -> bool {
    &&& forall|i: int, j: int|
        #![trigger es[i], es[j]]
        0 <= i < es.len() && 0 <= j < es.len() && i != j ==> es[i].key != es[j].key
    &&& forall|i: int| #![trigger es[i]] 0 <= i < es.len() ==> es[i].songs.no_duplicates()
}

spec fn has_key(es: Seq<EntryView>, key: Seq<Seq<char>>) -> bool {
    exists|i: int| #![trigger es[i]] 0 <= i < es.len() && es[i].key == key
}

spec fn position(es: Seq<EntryView>, key: Seq<Seq<char>>) -> int {
    choose|i: int| #![trigger es[i]] 0 <= i < es.len() && es[i].key == key
}

spec fn entries_map(es: Seq<EntryView>) -> Map<Seq<Seq<char>>, Set<Seq<char>>> {
    Map::new(
        |key: Seq<Seq<char>>| has_key(es, key),
        |key: Seq<Seq<char>>| es[position(es, key)].songs.to_set(),
    )
}

proof fn lemma_position(es: Seq<EntryView>, i: int)
    requires
        entries_wf(es),
        0 <= i < es.len(),
    ensures
        has_key(es, es[i].key),
        position(es, es[i].key) == i,
        entries_map(es).dom().contains(es[i].key),
        entries_map(es)[es[i].key] == es[i].songs.to_set(),
{
    let p = position(es, es[i].key);
    assert(0 <= p < es.len() && es[p].key == es[i].key);
    if p != i {
        assert(es[p].key != es[i].key);
    }
}

/// Adding an entry under a new key.
proof fn lemma_push_entry(es: Seq<EntryView>, e: EntryView)
    requires
        entries_wf(es),
        !has_key(es, e.key),
        e.songs.len() == 1,
    ensures
        entries_wf(es.push(e)),
        entries_map(es.push(e)) == with_rule(entries_map(es), e.key, e.songs[0]),
{
    let more = es.push(e);
    assert forall|i: int, j: int|
        #![trigger more[i], more[j]]
        0 <= i < more.len() && 0 <= j < more.len() && i != j implies more[i].key
        != more[j].key by {
        if i < es.len() && j < es.len() {
            assert(es[i].key != es[j].key);
        } else if i < es.len() {
            assert(es[i].key != e.key);
        } else {
            assert(es[j].key != e.key);
        }
    }
    assert(entries_wf(more));
    let a = entries_map(more);
    let b = with_rule(entries_map(es), e.key, e.songs[0]);
    assert forall|k: Seq<Seq<char>>| a.dom().contains(k) <==> b.dom().contains(k) by {
        if has_key(more, k) {
            let i = position(more, k);
            if i < es.len() {
                assert(es[i].key == k);
            }
        }
        if has_key(es, k) {
            let i = position(es, k);
            assert(more[i].key == k);
        }
        if k == e.key {
            assert(more[es.len() as int].key == k);
        }
    }
    assert forall|k: Seq<Seq<char>>| a.dom().contains(k) implies a[k] =~= b[k] by {
        let i = position(more, k);
        lemma_position(more, i);
        if i < es.len() {
            assert(es[i] == more[i]);
            lemma_position(es, i);
        } else {
            assert(e.songs =~= seq![e.songs[0]]);
            assert(e.songs.to_set() =~= set![e.songs[0]]) by {
                assert forall|x: Seq<char>| e.songs.contains(x) <==> x == e.songs[0] by {
                    if x == e.songs[0] {
                        assert(e.songs[0] == x);
                    }
                }
            }
        }
    }
    assert(a =~= b);
}

/// Adding a song to the entry at `i`.
proof fn lemma_update_entry(es: Seq<EntryView>, i: int, song: Seq<char>)
    requires
        entries_wf(es),
        0 <= i < es.len(),
    ensures
        es[i].songs.contains(song) ==> entries_map(es) == with_rule(
            entries_map(es),
            es[i].key,
            song,
        ),
        !es[i].songs.contains(song) ==> {
            let e = EntryView { key: es[i].key, songs: es[i].songs.push(song) };
            &&& entries_wf(es.update(i, e))
            &&& entries_map(es.update(i, e)) == with_rule(entries_map(es), es[i].key, song)
        },
{
    let key = es[i].key;
    lemma_position(es, i);
    if es[i].songs.contains(song) {
        assert(es[i].songs.to_set().insert(song) =~= es[i].songs.to_set());
        assert(entries_map(es) =~= with_rule(entries_map(es), key, song));
    } else {
        let e = EntryView { key, songs: es[i].songs.push(song) };
        let more = es.update(i, e);
        assert forall|a: int, b: int|
            #![trigger more[a], more[b]]
            0 <= a < more.len() && 0 <= b < more.len() && a != b implies more[a].key
            != more[b].key by {
            assert(more[a].key == es[a].key);
            assert(more[b].key == es[b].key);
        }
        assert forall|a: int| #![trigger more[a]] 0 <= a < more.len() implies more[a]
            .songs.no_duplicates() by {
            if a == i {
                let s = es[i].songs;
                let t = s.push(song);
                assert forall|x: int, y: int|
                    0 <= x < t.len() && 0 <= y < t.len() && x != y implies t[x] != t[y] by {
                    if x < s.len() && y < s.len() {
                        assert(s[x] != s[y]);
                    } else if x < s.len() {
                        assert(s.contains(s[x]));
                    } else {
                        assert(s.contains(s[y]));
                    }
                }
            } else {
                assert(more[a] == es[a]);
            }
        }
        assert(entries_wf(more));
        let m1 = entries_map(more);
        let m2 = with_rule(entries_map(es), key, song);
        assert forall|k: Seq<Seq<char>>| m1.dom().contains(k) <==> m2.dom().contains(k) by {
            if has_key(more, k) {
                let p = position(more, k);
                assert(es[p].key == k);
            }
            if has_key(es, k) {
                let p = position(es, k);
                assert(more[p].key == k);
            }
        }
        assert forall|k: Seq<Seq<char>>| m1.dom().contains(k) implies m1[k] =~= m2[k] by {
            let p = position(more, k);
            lemma_position(more, p);
            assert(es[p].key == k);
            lemma_position(es, p);
            if p == i {
                es[i].songs.lemma_push_to_set_commute(song);
            } else {
                assert(more[p] == es[p]);
            }
        }
        assert(m1 =~= m2);
    }
}

/// The rule index of one snapshot. It never changes once built.
#[derive(Debug)]
pub struct RuleIndex {
    entries: Vec<Entry>,
}

impl View for RuleIndex {
    type V = Map<Seq<Seq<char>>, Set<Seq<char>>>;

    closed spec fn view(&self) -> Map<Seq<Seq<char>>, Set<Seq<char>>> {
        entries_map(entry_views(self.entries@))
    }
}

impl RuleIndex {
    #[verifier::type_invariant]
    spec fn well_formed(&self) -> bool {
        entries_wf(entry_views(self.entries@))
    }

    /// The number of distinct antecedents.
    pub fn len(&self) -> (n: usize)
        ensures
            n == self@.dom().len(),
            self@.dom().finite(),
    {
        proof {
            use_type_invariant(self);
            lemma_domain_size(entry_views(self.entries@));
        }
        self.entries.len()
    }

    /// The consequents recorded for `key`, each once, or `None` where the index
    /// has no such antecedent.
    pub fn get(&self, key: &Vec<String>) -> (found: Option<&Vec<String>>)
        ensures
            match found {
                Some(songs) => self@.dom().contains(texts(key@)) && texts(songs@).to_set()
                    == self@[texts(key@)] && texts(songs@).no_duplicates(),
                None => !self@.dom().contains(texts(key@)),
            },
    {
        proof {
            use_type_invariant(self);
        }
        let ghost es = entry_views(self.entries@);
        let mut i: usize = 0;
        while i < self.entries.len()
            invariant
                i <= self.entries.len(),
                es == entry_views(self.entries@),
                entries_wf(es),
                forall|j: int| 0 <= j < i ==> (#[trigger] es[j]).key != texts(key@),
            decreases self.entries.len() - i,
        {
            if same_names(&self.entries[i].key, key) {
                proof {
                    assert(es[i as int] == self.entries@[i as int]@);
                    lemma_position(es, i as int);
                }
                return Some(&self.entries[i].songs);
            }
            assert(es[i as int] == self.entries@[i as int]@);
            i += 1;
        }
        None
    }
}

proof fn lemma_domain_size(es: Seq<EntryView>)
    requires
        entries_wf(es),
    ensures
        entries_map(es).dom().finite(),
        entries_map(es).dom().len() == es.len(),
    decreases es.len(),
{
    if es.len() == 0 {
        assert(entries_map(es).dom() =~= Set::<Seq<Seq<char>>>::empty());
    } else {
        let front = es.drop_last();
        let last = es.last();
        assert(entries_wf(front)) by {
            assert forall|i: int, j: int|
                #![trigger front[i], front[j]]
                0 <= i < front.len() && 0 <= j < front.len() && i != j implies front[i].key
                != front[j].key by {
                assert(es[i].key != es[j].key);
            }
            assert forall|i: int| #![trigger front[i]] 0 <= i < front.len() implies front[i]
                .songs.no_duplicates() by {
                assert(front[i] == es[i]);
            }
        }
        lemma_domain_size(front);
        assert(!has_key(front, last.key)) by {
            if has_key(front, last.key) {
                let p = position(front, last.key);
                assert(es[p].key != es[es.len() - 1].key);
            }
        }
        assert(entries_map(es).dom() =~= entries_map(front).dom().insert(last.key)) by {
            assert forall|k: Seq<Seq<char>>|
                entries_map(es).dom().contains(k) <==> entries_map(front).dom().insert(
                    last.key,
                ).contains(k) by {
                if has_key(es, k) {
                    let p = position(es, k);
                    if p < front.len() {
                        assert(front[p].key == k);
                    }
                }
                if has_key(front, k) {
                    let p = position(front, k);
                    assert(es[p].key == k);
                }
                if k == last.key {
                    assert(es[es.len() - 1].key == k);
                }
            }
        }
    }
}

/// Builds the index of `rules`: each antecedent is brought into canonical
/// form, and the consequents of rules with the same antecedent are gathered.
pub fn make_rules_map(rules: Vec<RuleRecord>) -> (index: RuleIndex)
    ensures
        index@ == rules_map(rule_views(rules@)),
{
    let mut entries: Vec<Entry> = Vec::new();
    let mut rules = rules;
    let ghost all = rule_views(rules@);
    let ghost mut done: Seq<RuleView> = Seq::empty();
    proof {
        lemma_rules_map_empty();
        assert(entry_views(entries@) =~= Seq::<EntryView>::empty());
        assert(entries_map(entry_views(entries@)) =~= Map::<
            Seq<Seq<char>>,
            Set<Seq<char>>,
        >::empty());
    }
    let mut n: usize = 0;
    while n < rules.len()
        invariant
            n <= rules.len(),
            all == rule_views(rules@),
            done == all.take(n as int),
            entries_wf(entry_views(entries@)),
            entries_map(entry_views(entries@)) == rules_map(done),
        decreases rules.len() - n,
    {
        let key = normalize(clone_names(&rules[n].antecedent));
        let song = rules[n].consequent.clone();
        let ghost es = entry_views(entries@);
        proof {
            let r = all[n as int];
            assert(r == rules@[n as int]@);
            assert(texts(key@) == normalized(r.antecedent));
            assert(song@ == r.consequent);
            assert(all.take(n + 1) =~= done.push(r));
            lemma_rules_map_push(done, r);
            done = done.push(r);
        }
        let mut i: usize = 0;
        while i < entries.len() && !same_names(&entries[i].key, &key)
            invariant
                i <= entries.len(),
                es == entry_views(entries@),
                forall|j: int| 0 <= j < i ==> (#[trigger] es[j]).key != texts(key@),
            decreases entries.len() - i,
        {
            assert(es[i as int] == entries@[i as int]@);
            i += 1;
        }
        if i < entries.len() {
            assert(es[i as int] == entries@[i as int]@);
            proof {
                lemma_update_entry(es, i as int, song@);
            }
            if !holds_name(&entries[i].songs, song.as_str()) {
                let mut e = entries.remove(i);
                e.songs.push(song);
                assert(texts(e.songs@) =~= es[i as int].songs.push(song@));
                entries.insert(i, e);
                assert(entry_views(entries@) =~= es.update(
                    i as int,
                    EntryView { key: es[i as int].key, songs: es[i as int].songs.push(song@) },
                ));
            }
        } else {
            let mut songs: Vec<String> = Vec::new();
            songs.push(song);
            let e = Entry { key, songs };
            proof {
                assert(e@.songs =~= seq![song@]);
                assert(!has_key(es, e@.key));
                lemma_push_entry(es, e@);
            }
            entries.push(e);
            assert(entry_views(entries@) =~= es.push(e@));
        }
        n += 1;
    }
    assert(done =~= all);
    RuleIndex { entries }
}

} // verus!
