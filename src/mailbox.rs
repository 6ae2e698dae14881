//! One mailbox: its directory, its known ids, and the decisions of a fetch cycle.
use vstd::prelude::*;
use vstd::string::StringExecFns;
use crate::store::{KnownIds, ids_of_json, merged_ids};
use crate::subject::{get_subject, subject_of};

verus! {

/// A message as the remote server lists it: its number in this session and
/// its unique id, stable across sessions.
pub struct RemoteMessageInfo {
    pub message_id: u32,
    pub unique_id: String,
}

/// A listed message together with its header text.
pub struct RemoteMessage {
    pub info: RemoteMessageInfo,
    pub header: String,
}

/// What to do with a listed message.
#[derive(PartialEq, Eq, Structural, Debug, Clone, Copy)]
pub enum FetchAction {
    /// Its id is known: nothing to download.
    Skip,
    /// Its id is new: read its header, then download it.
    Download,
}

/// The name of a message with header `header` and unique id `uid`: its
/// subject where it has one, else the id.
pub open spec fn artifact_name(header: Seq<char>, uid: Seq<char>) -> Seq<char> {
    match subject_of(header) {
        Some(s) => s,
        None => uid,
    }
}

/// The file that holds a message named `name`.
pub open spec fn artifact_file(name: Seq<char>) -> Seq<char> {
    name + seq!['.', 'm', 's', 'g']
}

/// Unique id and header of each message of `r`.
pub open spec fn remote_view(r: Seq<RemoteMessage>) -> Seq<(Seq<char>, Seq<char>)> {
    r.map_values(|m: RemoteMessage| (m.info.unique_id@, m.header@))
}

/// The known ids after one cycle over the messages `r` (unique id, header),
/// starting from `known`.
pub open spec fn cycle_ids(known: Map<Seq<char>, Seq<char>>, r: Seq<(Seq<char>, Seq<char>)>) -> Map<
    Seq<char>,
    Seq<char>,
>
    decreases r.len(),
{
    if r.len() == 0 {
        known
    } else {
        let k = cycle_ids(known, r.drop_last());
        let (u, h) = r.last();
        if k.contains_key(u) {
            k
        } else {
            k.insert(u, artifact_name(h, u))
        }
    }
}

/// The files written by one cycle over `r` starting from `known`, in order.
pub open spec fn cycle_files(known: Map<Seq<char>, Seq<char>>, r: Seq<(Seq<char>, Seq<char>)>) -> Seq<
    Seq<char>,
>
    decreases r.len(),
{
    if r.len() == 0 {
        Seq::empty()
    } else {
        let k = cycle_ids(known, r.drop_last());
        let f = cycle_files(known, r.drop_last());
        let (u, h) = r.last();
        if k.contains_key(u) {
            f
        } else {
            f.push(artifact_file(artifact_name(h, u)))
        }
    }
}

/// The name of a message with the given header and unique id.
pub fn name_for(header: &str, unique_id: &String) -> (r: String)
    ensures
        r@ == artifact_name(header@, unique_id@),
{
    match get_subject(header) {
        Some(s) => s,
        None => unique_id.clone(),
    }
}

/// The file name for a message named `name`.
pub fn file_for(name: &String) -> (r: String)
    ensures
        r@ == artifact_file(name@),
{
    proof {
        reveal_strlit(".msg");
    }
    name.clone().concat(".msg")
}

/// A mailbox: a directory and the ids of the messages already stored there.
pub struct MailBox {
    path: String,
    known_ids: KnownIds,
}

impl MailBox {
    pub closed spec fn wf(&self) -> bool {
        self.known_ids.wf()
    }

    /// The known ids: unique id to artifact name.
    pub closed spec fn ids(&self) -> Map<Seq<char>, Seq<char>> {
        self.known_ids.ids()
    }

    pub closed spec fn dir(&self) -> Seq<char> {
        self.path@
    }

    /// A mailbox for the directory `path`, with the known ids read from the
    /// JSON text `stored` where there is one.
    pub fn new(path: String, stored: Option<&str>) -> (r: MailBox)
        ensures
            r.wf(),
            r.dir() == path@,
            r.ids() == match stored {
                Some(t) => merged_ids(Map::empty(), t@),
                None => Map::empty(),
            },
    {
        let mut known_ids = KnownIds::new();
        match stored {
            Some(t) => known_ids.load_json(t),
            None => {},
        }
        MailBox { path, known_ids }
    }

    pub fn path(&self) -> (r: &String)
        ensures
            r@ == self.dir(),
    {
        &self.path
    }

    /// Whether the message with id `unique_id` is known.
    pub fn contains(&self, unique_id: &String) -> (r: bool)
        requires
            self.wf(),
        ensures
            r == self.ids().contains_key(unique_id@),
    {
        self.known_ids.contains(unique_id)
    }

    /// The name recorded for `unique_id`, if any.
    pub fn lookup(&self, unique_id: &String) -> (r: Option<String>)
        requires
            self.wf(),
        ensures
            match r {
                Some(n) => self.ids().contains_key(unique_id@) && self.ids()[unique_id@] == n@,
                None => !self.ids().contains_key(unique_id@),
            },
    {
        self.known_ids.lookup(unique_id)
    }

    /// Reads the JSON text `text` into the known ids; known ids keep their names.
    pub fn load(&mut self, text: &str)
        requires
            old(self).wf(),
        ensures
            final(self).wf(),
            final(self).dir() == old(self).dir(),
            final(self).ids() == merged_ids(old(self).ids(), text@),
    {
        self.known_ids.load_json(text);
    }

    /// The known ids as indented JSON text, which reads back as the same mapping.
    pub fn save(&self) -> (r: Option<String>)
        requires
            self.wf(),
        ensures
            r is Some,
            r matches Some(t) ==> ids_of_json(t@) == Some(self.ids()),
            r matches Some(t) ==> merged_ids(Map::empty(), t@) == self.ids(),
    {
        let r = self.known_ids.to_json();
        proof {
            assert(self.ids().union_prefer_right(Map::<Seq<char>, Seq<char>>::empty())
                =~= self.ids());
        }
        r
    }

    /// What to do with the listed message `info`.
    pub fn next_action(&self, info: &RemoteMessageInfo) -> (r: FetchAction)
        requires
            self.wf(),
        ensures
            r == (if self.ids().contains_key(info.unique_id@) {
                FetchAction::Skip
            } else {
                FetchAction::Download
            }),
    {
        if self.known_ids.contains(&info.unique_id) {
            FetchAction::Skip
        } else {
            FetchAction::Download
        }
    }

    /// Records that the message `unique_id` was stored under `name`, unless
    /// it was known already.
    pub fn record(&mut self, unique_id: String, name: String)
        requires
            old(self).wf(),
        ensures
            final(self).wf(),
            final(self).dir() == old(self).dir(),
            final(self).ids() == (if old(self).ids().contains_key(unique_id@) {
                old(self).ids()
            } else {
                old(self).ids().insert(unique_id@, name@)
            }),
    {
        self.known_ids.record(unique_id, name);
    }

    /// Takes in the new message `info` whose header is `header`: records it
    /// under the name derived from the header and returns that name. A
    /// message already known keeps its name.
    pub fn take_message(&mut self, info: &RemoteMessageInfo, header: &str) -> (r: String)
        requires
            old(self).wf(),
        ensures
            final(self).wf(),
            final(self).dir() == old(self).dir(),
            r@ == artifact_name(header@, info.unique_id@),
            final(self).ids() == (if old(self).ids().contains_key(info.unique_id@) {
                old(self).ids()
            } else {
                old(self).ids().insert(info.unique_id@, r@)
            }),
    {
        let name = name_for(header, &info.unique_id);
        self.record(info.unique_id.clone(), name.clone());
        name
    }

    /// One fetch cycle over the listed messages `remote`, in order: a known
    /// id is skipped, a new one is named from its header and recorded. Returns
    /// the files to write, one per new message, in order. The header of a
    /// known message is never looked at.
    pub fn fetch(&mut self, remote: &Vec<RemoteMessage>) -> (r: Vec<String>)
        requires
            old(self).wf(),
        ensures
            final(self).wf(),
            final(self).dir() == old(self).dir(),
            final(self).ids() == cycle_ids(old(self).ids(), remote_view(remote@)),
            r@.map_values(|f: String| f@) == cycle_files(old(self).ids(), remote_view(remote@)),
    {
        let ghost start = self.ids();
        let ghost rv = remote_view(remote@);
        let mut files: Vec<String> = Vec::new();
        let mut i: usize = 0;
        while i < remote.len()
            invariant
                self.wf(),
                self.dir() == old(self).dir(),
                start == old(self).ids(),
                rv == remote_view(remote@),
                i <= remote@.len(),
                self.ids() == cycle_ids(start, rv.subrange(0, i as int)),
                files@.map_values(|f: String| f@) == cycle_files(start, rv.subrange(0, i as int)),
            decreases remote@.len() - i,
        {
            proof {
                assert(rv.subrange(0, i + 1).drop_last() =~= rv.subrange(0, i as int));
            }
            let m = &remote[i];
            let ghost files_before = files@;
            if self.next_action(&m.info) == FetchAction::Download {
                let name = self.take_message(&m.info, &m.header);
                files.push(file_for(&name));
                proof {
                    assert(files@.drop_last() =~= files_before);
                    assert(files@.map_values(|f: String| f@) =~= files_before.map_values(
                        |f: String| f@,
                    ).push(files@.last()@));
                }
            }
            i = i + 1;
        }
        proof {
            assert(rv.subrange(0, remote@.len() as int) =~= rv);
        }
        files
    }
}

/// After a cycle over `r`, every listed id is known.
pub proof fn lemma_cycle_keeps(known: Map<Seq<char>, Seq<char>>, r: Seq<(Seq<char>, Seq<char>)>)
    ensures
        forall|i: int| 0 <= i < r.len() ==> cycle_ids(known, r).contains_key(#[trigger] r[i].0),
    decreases r.len(),
{
    if r.len() > 0 {
        lemma_cycle_keeps(known, r.drop_last());
        assert forall|i: int| 0 <= i < r.len() implies cycle_ids(known, r).contains_key(
            #[trigger] r[i].0,
        ) by {
            if i < r.len() - 1 {
                assert(r.drop_last()[i] == r[i]);
            }
        }
    }
}

/// A cycle over messages whose ids are all known changes nothing and writes nothing.
pub proof fn lemma_cycle_all_known(
    known: Map<Seq<char>, Seq<char>>,
    r: Seq<(Seq<char>, Seq<char>)>,
)
    requires
        forall|i: int| 0 <= i < r.len() ==> known.contains_key(#[trigger] r[i].0),
    ensures
        cycle_ids(known, r) == known,
        cycle_files(known, r) == Seq::<Seq<char>>::empty(),
    decreases r.len(),
{
    if r.len() > 0 {
        assert forall|i: int| 0 <= i < r.drop_last().len() implies known.contains_key(
            #[trigger] r.drop_last()[i].0,
        ) by {
            assert(r.drop_last()[i] == r[i]);
        }
        lemma_cycle_all_known(known, r.drop_last());
        assert(known.contains_key(r[r.len() - 1].0));
    }
}

/// Fetching twice from a remote state that did not change: the second cycle
/// downloads nothing and leaves the known ids as the first one left them.
pub proof fn lemma_fetch_idempotent(known: Map<Seq<char>, Seq<char>>, r: Seq<(Seq<char>, Seq<char>)>)
    ensures
        cycle_ids(cycle_ids(known, r), r) == cycle_ids(known, r),
        cycle_files(cycle_ids(known, r), r) == Seq::<Seq<char>>::empty(),
{
    lemma_cycle_keeps(known, r);
    lemma_cycle_all_known(cycle_ids(known, r), r);
}

/// Of two listed messages, the first known and the second not: one file is
/// written, for the second, and only the second id is added to the store.
pub proof fn lemma_fetch_one_new(
    known: Map<Seq<char>, Seq<char>>,
    u1: Seq<char>,
    h1: Seq<char>,
    u2: Seq<char>,
    h2: Seq<char>,
)
    requires
        known.contains_key(u1),
        !known.contains_key(u2),
    ensures
        cycle_files(known, seq![(u1, h1), (u2, h2)]) == seq![artifact_file(artifact_name(h2, u2))],
        cycle_ids(known, seq![(u1, h1), (u2, h2)]) == known.insert(u2, artifact_name(h2, u2)),
{
    let r = seq![(u1, h1), (u2, h2)];
    assert(r.drop_last() =~= seq![(u1, h1)]);
    let e = Seq::<(Seq<char>, Seq<char>)>::empty();
    assert(seq![(u1, h1)].drop_last() =~= e);
    assert(cycle_ids(known, e) == known);
    assert(cycle_files(known, e) == Seq::<Seq<char>>::empty());
    assert(seq![(u1, h1)].last() == (u1, h1));
    assert(cycle_ids(known, seq![(u1, h1)]) == known);
    assert(cycle_files(known, seq![(u1, h1)]) =~= Seq::<Seq<char>>::empty());
    assert(cycle_files(known, r) =~= seq![artifact_file(artifact_name(h2, u2))]);
}

/// A cycle records no id beyond those known before and those listed.
pub proof fn lemma_cycle_dom(
    known: Map<Seq<char>, Seq<char>>,
    r: Seq<(Seq<char>, Seq<char>)>,
    u: Seq<char>,
)
    requires
        !known.contains_key(u),
        forall|i: int| 0 <= i < r.len() ==> #[trigger] r[i].0 != u,
    ensures
        !cycle_ids(known, r).contains_key(u),
    decreases r.len(),
{
    if r.len() > 0 {
        assert forall|i: int| 0 <= i < r.drop_last().len() implies #[trigger] r.drop_last()[i].0
            != u by {
            assert(r.drop_last()[i] == r[i]);
        }
        lemma_cycle_dom(known, r.drop_last(), u);
        assert(r[r.len() - 1].0 != u);
    }
}

/// A new message whose header has no subject, listed after messages with
/// other ids, is written to the file named after its unique id, and the id
/// is recorded under itself.
pub proof fn lemma_fetch_no_subject(
    known: Map<Seq<char>, Seq<char>>,
    r: Seq<(Seq<char>, Seq<char>)>,
    u: Seq<char>,
    h: Seq<char>,
)
    requires
        subject_of(h) is None,
        !known.contains_key(u),
        forall|i: int| 0 <= i < r.len() ==> #[trigger] r[i].0 != u,
    ensures
        cycle_files(known, r.push((u, h))).last() == artifact_file(u),
        cycle_ids(known, r.push((u, h)))[u] == u,
{
    lemma_cycle_dom(known, r, u);
    assert(r.push((u, h)).drop_last() =~= r);
}

} // verus!
