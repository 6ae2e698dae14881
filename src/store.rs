//! The store of known message ids: unique id to the name given to the message.
use vstd::prelude::*;

verus! {

/// The mapping that `serde_json::from_str` reads from `text` as an object of
/// strings, or `None` where `text` is no such object.
pub uninterp spec fn ids_of_json(text: Seq<char>) -> Option<Map<Seq<char>, Seq<char>>>;

/// The pairs of `s` as character sequences.
pub open spec fn pairs_view(s: Seq<(String, String)>) -> Seq<(Seq<char>, Seq<char>)> {
    s.map_values(|p: (String, String)| (p.0@, p.1@))
}

/// No key stands twice in `s`.
pub open spec fn keys_distinct(s: Seq<(Seq<char>, Seq<char>)>) -> bool {
    forall|i: int, j: int| 0 <= i < j < s.len() ==> s[i].0 != s[j].0
}

/// The mapping that the pairs of `s` make, a later pair winning over an earlier one.
pub open spec fn map_of(s: Seq<(Seq<char>, Seq<char>)>) -> Map<Seq<char>, Seq<char>>
    decreases s.len(),
{
    if s.len() == 0 {
        Map::empty()
    } else {
        map_of(s.drop_last()).insert(s.last().0, s.last().1)
    }
}

pub proof fn lemma_map_of_dom(s: Seq<(Seq<char>, Seq<char>)>, k: Seq<char>)
    ensures
        map_of(s).contains_key(k) <==> exists|i: int| 0 <= i < s.len() && s[i].0 == k,
    decreases s.len(),
{
    if s.len() > 0 {
        lemma_map_of_dom(s.drop_last(), k);
        if map_of(s.drop_last()).contains_key(k) {
            let i = choose|i: int| 0 <= i < s.drop_last().len() && s.drop_last()[i].0 == k;
            assert(s[i].0 == k);
        }
        if exists|i: int| 0 <= i < s.len() && s[i].0 == k {
            let i = choose|i: int| 0 <= i < s.len() && s[i].0 == k;
            if i < s.len() - 1 {
                assert(s.drop_last()[i].0 == k);
            }
        }
    }
}

pub proof fn lemma_map_of_value(s: Seq<(Seq<char>, Seq<char>)>, i: int)
    requires
        keys_distinct(s),
        0 <= i < s.len(),
    ensures
        map_of(s).contains_key(s[i].0),
        map_of(s)[s[i].0] == s[i].1,
    decreases s.len(),
{
    if i < s.len() - 1 {
        assert(s.drop_last()[i] == s[i]);
        lemma_map_of_value(s.drop_last(), i);
    }
}

/// Relies on `serde_json::from_str` reading a JSON object of strings into a
/// `HashMap`, whose entries are then handed out in the map's own order.
#[verifier::external_body]
fn decode_ids(text: &str) -> (r: Option<Vec<(String, String)>>)
    ensures
        match (r, ids_of_json(text@)) {
            (Some(v), Some(m)) => keys_distinct(pairs_view(v@)) && map_of(pairs_view(v@)) == m,
            (None, None) => true,
            _ => false,
        },
{
    match serde_json::from_str::<std::collections::HashMap<String, String>>(text) {
        Ok(m) => Some(m.into_iter().collect()),
        Err(_) => None,
    }
}

/// Relies on `serde_json::to_string_pretty` writing the pairs as an indented
/// JSON object of strings, which `serde_json::from_str` reads back as the same
/// mapping. It fails only where a `Serialize` impl fails or a map key is not a
/// string, neither of which can happen for string keys and values.
#[verifier::external_body]
fn encode_ids(entries: &Vec<(String, String)>) -> (r: Option<String>)
    requires
        keys_distinct(pairs_view(entries@)),
    ensures
        r is Some,
        r matches Some(t) ==> ids_of_json(t@) == Some(map_of(pairs_view(entries@))),
{
    let m: std::collections::BTreeMap<&String, &String> = entries.iter().map(|p| (&p.0, &p.1)).collect();
    serde_json::to_string_pretty(&m).ok()
}

/// The mapping after reading the JSON text `text` into a store that held
/// `before`: known ids keep their names, and unreadable text changes nothing.
pub open spec fn merged_ids(before: Map<Seq<char>, Seq<char>>, text: Seq<char>) -> Map<
    Seq<char>,
    Seq<char>,
> {
    match ids_of_json(text) {
        Some(m) => m.union_prefer_right(before),
        None => before,
    }
}

/// The known ids of one mailbox. An id, once recorded, keeps its first name.
pub struct KnownIds {
    entries: Vec<(String, String)>,
}

impl KnownIds {
    pub closed spec fn pairs(&self) -> Seq<(Seq<char>, Seq<char>)> {
        pairs_view(self.entries@)
    }

    pub open spec fn wf(&self) -> bool {
        keys_distinct(self.pairs())
    }

    /// The mapping from unique id to artifact name.
    pub open spec fn ids(&self) -> Map<Seq<char>, Seq<char>> {
        map_of(self.pairs())
    }

    pub fn new() -> (r: KnownIds)
        ensures
            r.wf(),
            r.ids() == Map::<Seq<char>, Seq<char>>::empty(),
    {
        let r = KnownIds { entries: Vec::new() };
        assert(r.pairs().len() == 0);
        r
    }

    fn find(&self, id: &String) -> (r: Option<usize>)
        ensures
            match r {
                Some(i) => i < self.pairs().len() && self.pairs()[i as int].0 == id@,
                None => forall|j: int| 0 <= j < self.pairs().len() ==> self.pairs()[j].0 != id@,
            },
    {
        let mut i: usize = 0;
        while i < self.entries.len()
            invariant
                i <= self.entries@.len(),
                forall|j: int| 0 <= j < i ==> self.pairs()[j].0 != id@,
            decreases self.entries@.len() - i,
        {
            if self.entries[i].0 == *id {
                return Some(i);
            }
            i = i + 1;
        }
        None
    }

    /// Whether `id` is known.
    pub fn contains(&self, id: &String) -> (r: bool)
        requires
            self.wf(),
        ensures
            r == self.ids().contains_key(id@),
    {
        proof {
            lemma_map_of_dom(self.pairs(), id@);
        }
        self.find(id).is_some()
    }

    /// The name recorded for `id`, if any.
    pub fn lookup(&self, id: &String) -> (r: Option<String>)
        requires
            self.wf(),
        ensures
            match r {
                Some(n) => self.ids().contains_key(id@) && self.ids()[id@] == n@,
                None => !self.ids().contains_key(id@),
            },
    {
        proof {
            lemma_map_of_dom(self.pairs(), id@);
        }
        match self.find(id) {
            Some(i) => {
                proof {
                    lemma_map_of_value(self.pairs(), i as int);
                }
                Some(self.entries[i].1.clone())
            },
            None => None,
        }
    }

    /// Records `id -> name` unless `id` is already known.
    pub fn record(&mut self, id: String, name: String)
        requires
            old(self).wf(),
        ensures
            final(self).wf(),
            final(self).ids() == (if old(self).ids().contains_key(id@) {
                old(self).ids()
            } else {
                old(self).ids().insert(id@, name@)
            }),
    {
        proof {
            lemma_map_of_dom(self.pairs(), id@);
        }
        if self.find(&id).is_none() {
            let ghost before = self.pairs();
            let ghost key = id@;
            let ghost value = name@;
            self.entries.push((id, name));
            proof {
                assert(self.pairs() =~= before.push((key, value)));
                assert(self.pairs().drop_last() =~= before);
            }
        }
    }

    /// The mapping as indented JSON text.
    pub fn to_json(&self) -> (r: Option<String>)
        requires
            self.wf(),
        ensures
            r is Some,
            r matches Some(t) ==> ids_of_json(t@) == Some(self.ids()),
    {
        encode_ids(&self.entries)
    }

    /// Records every entry of the JSON object `text`, keeping the names of ids
    /// already known; text that is no such object changes nothing.
    pub fn load_json(&mut self, text: &str)
        requires
            old(self).wf(),
        ensures
            final(self).wf(),
            final(self).ids() == merged_ids(old(self).ids(), text@),
    {
        match decode_ids(text) {
            Some(v) => {
                let ghost start = self.ids();
                let ghost pv = pairs_view(v@);
                let mut i: usize = 0;
                while i < v.len()
                    invariant
                        self.wf(),
                        i <= v@.len(),
                        pv == pairs_view(v@),
                        keys_distinct(pv),
                        self.ids() == map_of(pv.subrange(0, i as int)).union_prefer_right(start),
                    decreases v@.len() - i,
                {
                    let ghost before = self.ids();
                    let ghost m = map_of(pv.subrange(0, i as int));
                    proof {
                        assert(pv.subrange(0, i + 1).drop_last() =~= pv.subrange(0, i as int));
                        lemma_map_of_dom(pv.subrange(0, i as int), pv[i as int].0);
                        if m.contains_key(pv[i as int].0) {
                            let j = choose|j: int|
                                0 <= j < i && pv.subrange(0, i as int)[j].0 == pv[i as int].0;
                            assert(pv[j].0 == pv[i as int].0);
                        }
                    }
                    self.record(v[i].0.clone(), v[i].1.clone());
                    proof {
                        assert(self.ids() =~= map_of(pv.subrange(0, i + 1)).union_prefer_right(
                            start,
                        ));
                    }
                    i = i + 1;
                }
                proof {
                    assert(pv.subrange(0, v@.len() as int) =~= pv);
                }
            },
            None => {},
        }
    }
}

/// What one store writes as JSON, a fresh store reads back as the same mapping.
pub proof fn lemma_json_round_trip(s: KnownIds, t: Seq<char>)
    requires
        s.wf(),
        ids_of_json(t) == Some(s.ids()),
    ensures
        merged_ids(Map::empty(), t) == s.ids(),
{
    assert(s.ids().union_prefer_right(Map::<Seq<char>, Seq<char>>::empty()) =~= s.ids());
}

} // verus!
