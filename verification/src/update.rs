//! The decisions of a knowledge-base update, as a state machine.
//!
//! The caller performs each requested action (reading a file, asking the
//! store for the hashes it holds for a file, embedding a chunk, inserting a
//! row) and reports its outcome as an event; `Updater::step` decides what
//! comes next.
use crate::digest::{content_hash, content_hash_of};
use crate::rag::{chunks, chunks_of, needs_update, opt_strings_view, should_update, strings_view, vec_views, CHUNK_SIZE};
use vstd::prelude::*;

verus! {

/// What the caller reports back after performing an action.
pub enum UpdateEvent {
    /// The content of the file, or `None` when it could not be read.
    FileRead(Option<String>),
    /// The hashes the store holds for the file, or `None` when the store
    /// could not be asked.
    StoredHashes(Option<Vec<String>>),
    /// Whether the chunk could be embedded.
    Embedded(bool),
    /// The row was handed to the store (a failed insert is only reported).
    Inserted,
}

/// The mathematical view of an event.
pub enum EventModel {
    FileRead(Option<Seq<char>>),
    StoredHashes(Option<Seq<Seq<char>>>),
    Embedded(bool),
    Inserted,
}

impl View for UpdateEvent {
    type V = EventModel;

    open spec fn view(&self) -> EventModel {
        match self {
            UpdateEvent::FileRead(c) => EventModel::FileRead(
                match c {
                    Some(s) => Some(s@),
                    None => None,
                },
            ),
            UpdateEvent::StoredHashes(h) => EventModel::StoredHashes(opt_strings_view(*h)),
            UpdateEvent::Embedded(ok) => EventModel::Embedded(*ok),
            UpdateEvent::Inserted => EventModel::Inserted,
        }
    }
}

/// What the updater asks the caller to do next.
pub enum UpdateAction {
    /// Read the content of `filename`.
    ReadFile { filename: String },
    /// Ask the store for the hashes of the rows stored for `filename`, whose
    /// content now hashes to `hash`.
    LookupStored { filename: String, hash: String },
    /// Embed `text`, a chunk of `filename` whose content hashes to `hash`.
    Embed { filename: String, hash: String, text: String },
    /// Store a row for the chunk `text` of `filename`, with the embedding just
    /// computed for it.
    Insert { filename: String, hash: String, text: String },
    /// Nothing is left to do.
    Finish,
}

/// The mathematical view of an action.
pub enum ActionModel {
    ReadFile(Seq<char>),
    LookupStored(Seq<char>, Seq<char>),
    Embed(Seq<char>, Seq<char>, Seq<char>),
    Insert(Seq<char>, Seq<char>, Seq<char>),
    Finish,
}

impl View for UpdateAction {
    type V = ActionModel;

    open spec fn view(&self) -> ActionModel {
        match self {
            UpdateAction::ReadFile { filename } => ActionModel::ReadFile(filename@),
            UpdateAction::LookupStored { filename, hash } => ActionModel::LookupStored(
                filename@,
                hash@,
            ),
            UpdateAction::Embed { filename, hash, text } => ActionModel::Embed(
                filename@,
                hash@,
                text@,
            ),
            UpdateAction::Insert { filename, hash, text } => ActionModel::Insert(
                filename@,
                hash@,
                text@,
            ),
            UpdateAction::Finish => ActionModel::Finish,
        }
    }
}

/// Where the updater stands with the current file.
pub enum Phase {
    /// Waiting for the file's content.
    Reading,
    /// Waiting for the stored hashes of the file.
    Checking { content: Seq<char>, hash: Seq<char> },
    /// Waiting for the embedding of chunk `index`.
    Embedding { hash: Seq<char>, texts: Seq<Seq<char>>, index: int },
    /// Waiting for the insertion of chunk `index`.
    Inserting { hash: Seq<char>, texts: Seq<Seq<char>>, index: int },
    /// Every file has been handled.
    Done,
}

/// The mathematical state of an update: the files to handle, the index of the
/// current one, the `(file, hash)` pairs recorded so far, and the phase.
pub struct UpdateState {
    pub files: Seq<Seq<char>>,
    pub current: int,
    pub hashes: Seq<(Seq<char>, Seq<char>)>,
    pub phase: Phase,
}

/// The state every update starts in.
pub open spec fn initial(files: Seq<Seq<char>>) -> UpdateState {
    UpdateState {
        files,
        current: 0,
        hashes: seq![],
        phase: if files.len() > 0 {
            Phase::Reading
        } else {
            Phase::Done
        },
    }
}

/// The states an update can be in.
pub open spec fn well_formed(s: UpdateState) -> bool {
    &&& 0 <= s.current <= s.files.len()
    &&& (s.phase is Done <==> s.current == s.files.len())
    &&& match s.phase {
        Phase::Embedding { texts, index, .. } => 0 <= index < texts.len(),
        Phase::Inserting { texts, index, .. } => 0 <= index < texts.len(),
        _ => true,
    }
}

/// Moves on to the next file, or to `Done` after the last one.
pub open spec fn advance(s: UpdateState) -> UpdateState {
    if s.current + 1 < s.files.len() {
        UpdateState { current: s.current + 1, phase: Phase::Reading, ..s }
    } else {
        UpdateState { current: s.files.len() as int, phase: Phase::Done, ..s }
    }
}

/// Moves on to the chunk after `index`, or to the next file after the last
/// chunk.
pub open spec fn after_chunk(
    s: UpdateState,
    hash: Seq<char>,
    texts: Seq<Seq<char>>,
    index: int,
) -> UpdateState {
    if index < texts.len() - 1 {
        UpdateState { phase: Phase::Embedding { hash, texts, index: index + 1 }, ..s }
    } else {
        advance(s)
    }
}

/// The state after the caller reports `e`. An event that does not answer the
/// pending action leaves the state as it is.
pub open spec fn transition(s: UpdateState, e: EventModel) -> UpdateState {
    match s.phase {
        Phase::Reading => match e {
            EventModel::FileRead(None) => advance(s),
            EventModel::FileRead(Some(content)) => {
                let hash = content_hash(content);
                UpdateState {
                    hashes: s.hashes.push((s.files[s.current], hash)),
                    phase: Phase::Checking { content, hash },
                    ..s
                }
            },
            _ => s,
        },
        Phase::Checking { content, hash } => match e {
            EventModel::StoredHashes(stored) => {
                let texts = chunks_of(content, CHUNK_SIZE as nat);
                if needs_update(stored, hash) && texts.len() > 0 {
                    UpdateState { phase: Phase::Embedding { hash, texts, index: 0 }, ..s }
                } else {
                    advance(s)
                }
            },
            _ => s,
        },
        Phase::Embedding { hash, texts, index } => match e {
            EventModel::Embedded(true) => UpdateState {
                phase: Phase::Inserting { hash, texts, index },
                ..s
            },
            EventModel::Embedded(false) => after_chunk(s, hash, texts, index),
            _ => s,
        },
        Phase::Inserting { hash, texts, index } => match e {
            EventModel::Inserted => after_chunk(s, hash, texts, index),
            _ => s,
        },
        Phase::Done => s,
    }
}

/// The action the updater waits on in state `s`.
pub open spec fn pending(s: UpdateState) -> ActionModel {
    match s.phase {
        Phase::Reading => ActionModel::ReadFile(s.files[s.current]),
        Phase::Checking { hash, .. } => ActionModel::LookupStored(s.files[s.current], hash),
        Phase::Embedding { hash, texts, index } => ActionModel::Embed(
            s.files[s.current],
            hash,
            texts[index],
        ),
        Phase::Inserting { hash, texts, index } => ActionModel::Insert(
            s.files[s.current],
            hash,
            texts[index],
        ),
        Phase::Done => ActionModel::Finish,
    }
}

enum Stage {
    Reading,
    Checking { content: String, hash: String },
    Embedding { hash: String, texts: Vec<String>, index: usize },
    Inserting { hash: String, texts: Vec<String>, index: usize },
    Done,
}

spec fn stage_model(st: Stage) -> Phase {
    match st {
        Stage::Reading => Phase::Reading,
        Stage::Checking { content, hash } => Phase::Checking { content: content@, hash: hash@ },
        Stage::Embedding { hash, texts, index } => Phase::Embedding {
            hash: hash@,
            texts: strings_view(texts@),
            index: index as int,
        },
        Stage::Inserting { hash, texts, index } => Phase::Inserting {
            hash: hash@,
            texts: strings_view(texts@),
            index: index as int,
        },
        Stage::Done => Phase::Done,
    }
}

/// The views of a sequence of string pairs.
pub open spec fn pairs_view(v: Seq<(String, String)>) -> Seq<(Seq<char>, Seq<char>)> {
    v.map_values(|p: (String, String)| (p.0@, p.1@))
}

/// A knowledge-base update in progress.
pub struct Updater {
    files: Vec<String>,
    current: usize,
    hashes: Vec<(String, String)>,
    stage: Stage,
}

impl Updater {
    /// The state of the update.
    pub closed spec fn model(&self) -> UpdateState {
        UpdateState {
            files: strings_view(self.files@),
            current: self.current as int,
            hashes: pairs_view(self.hashes@),
            phase: stage_model(self.stage),
        }
    }

    #[verifier::type_invariant]
    closed spec fn inv(&self) -> bool {
        well_formed(self.model())
    }

    /// An update over `files`, in order.
    pub fn new(files: Vec<String>) -> (u: Updater)
        ensures
            u.model() == initial(strings_view(files@)),
            well_formed(u.model()),
    {
        let stage = if files.len() > 0 {
            Stage::Reading
        } else {
            Stage::Done
        };
        let u = Updater { files, current: 0, hashes: Vec::new(), stage };
        assert(pairs_view(u.hashes@) =~= seq![]);
        u
    }

    /// The `(file, hash)` pairs recorded so far, one per file read, in order.
    pub fn hashes(&self) -> (h: &Vec<(String, String)>)
        ensures
            pairs_view(h@) == self.model().hashes,
    {
        &self.hashes
    }

    /// The action the update waits on.
    pub fn action(&self) -> (a: UpdateAction)
        ensures
            a@ == pending(self.model()),
    {
        proof {
            use_type_invariant(self);
        }
        match &self.stage {
            Stage::Reading => UpdateAction::ReadFile { filename: self.files[self.current].clone() },
            Stage::Checking { hash, .. } => UpdateAction::LookupStored {
                filename: self.files[self.current].clone(),
                hash: hash.clone(),
            },
            Stage::Embedding { hash, texts, index } => UpdateAction::Embed {
                filename: self.files[self.current].clone(),
                hash: hash.clone(),
                text: texts[*index].clone(),
            },
            Stage::Inserting { hash, texts, index } => UpdateAction::Insert {
                filename: self.files[self.current].clone(),
                hash: hash.clone(),
                text: texts[*index].clone(),
            },
            Stage::Done => UpdateAction::Finish,
        }
    }

    fn advanced(files: Vec<String>, current: usize, hashes: Vec<(String, String)>) -> (u: Updater)
        requires
            current < files@.len(),
        ensures
            u.model() == advance(
                UpdateState {
                    files: strings_view(files@),
                    current: current as int,
                    hashes: pairs_view(hashes@),
                    phase: Phase::Reading,
                },
            ),
    {
        if current < files.len() - 1 {
            Updater { files, current: current + 1, hashes, stage: Stage::Reading }
        } else {
            let n = files.len();
            Updater { files, current: n, hashes, stage: Stage::Done }
        }
    }

    fn after_chunk(
        files: Vec<String>,
        current: usize,
        hashes: Vec<(String, String)>,
        hash: String,
        texts: Vec<String>,
        index: usize,
    ) -> (u: Updater)
        requires
            current < files@.len(),
            index < texts@.len(),
        ensures
            u.model() == after_chunk(
                UpdateState {
                    files: strings_view(files@),
                    current: current as int,
                    hashes: pairs_view(hashes@),
                    phase: Phase::Reading,
                },
                hash@,
                strings_view(texts@),
                index as int,
            ),
    {
        if index < texts.len() - 1 {
            Updater { files, current, hashes, stage: Stage::Embedding { hash, texts, index: index + 1 } }
        } else {
            Self::advanced(files, current, hashes)
        }
    }

    /// The update after the caller reports `event`.
    pub fn step(self, event: UpdateEvent) -> (next: Updater)
        ensures
            next.model() == transition(self.model(), event@),
            well_formed(next.model()),
    {
        proof {
            use_type_invariant(&self);
        }
        let ghost s = self.model();
        let Updater { files, current, mut hashes, stage } = self;
        let next = match stage {
            Stage::Reading => match event {
                UpdateEvent::FileRead(None) => Self::advanced(files, current, hashes),
                UpdateEvent::FileRead(Some(content)) => {
                    let hash = content_hash_of(content.as_str());
                    let ghost before = hashes@;
                    hashes.push((files[current].clone(), hash.clone()));
                    assert(pairs_view(hashes@) =~= pairs_view(before).push(
                        (strings_view(files@)[current as int], hash@),
                    ));
                    Updater { files, current, hashes, stage: Stage::Checking { content, hash } }
                },
                _ => Updater { files, current, hashes, stage: Stage::Reading },
            },
            Stage::Checking { content, hash } => match event {
                UpdateEvent::StoredHashes(stored) => {
                    let update = should_update(&stored, &hash);
                    if update {
                        let texts = chunk_texts(content.as_str());
                        if texts.len() > 0 {
                            Updater {
                                files,
                                current,
                                hashes,
                                stage: Stage::Embedding { hash, texts, index: 0 },
                            }
                        } else {
                            Self::advanced(files, current, hashes)
                        }
                    } else {
                        Self::advanced(files, current, hashes)
                    }
                },
                _ => Updater { files, current, hashes, stage: Stage::Checking { content, hash } },
            },
            Stage::Embedding { hash, texts, index } => match event {
                UpdateEvent::Embedded(true) => Updater {
                    files,
                    current,
                    hashes,
                    stage: Stage::Inserting { hash, texts, index },
                },
                UpdateEvent::Embedded(false) => Self::after_chunk(
                    files,
                    current,
                    hashes,
                    hash,
                    texts,
                    index,
                ),
                _ => Updater { files, current, hashes, stage: Stage::Embedding { hash, texts, index } },
            },
            Stage::Inserting { hash, texts, index } => match event {
                UpdateEvent::Inserted => Self::after_chunk(files, current, hashes, hash, texts, index),
                _ => Updater { files, current, hashes, stage: Stage::Inserting { hash, texts, index } },
            },
            Stage::Done => Updater { files, current, hashes, stage: Stage::Done },
        };
        proof {
            use_type_invariant(&next);
        }
        next
    }
}

/// The chunks of `content`, each as a string.
pub fn chunk_texts(content: &str) -> (texts: Vec<String>)
    ensures
        strings_view(texts@) == chunks_of(content@, CHUNK_SIZE as nat),
{
    let pieces = chunks(content);
    let mut texts: Vec<String> = Vec::new();
    let mut i: usize = 0;
    while i < pieces.len()
        invariant
            i <= pieces@.len(),
            strings_view(texts@) == vec_views(pieces@).take(i as int),
        decreases pieces.len() - i,
    {
        let t = crate::text::string_from_chars(&pieces[i]);
        let ghost before = texts@;
        texts.push(t);
        assert(t@ == vec_views(pieces@)[i as int]);
        assert(strings_view(texts@) =~= strings_view(before).push(t@));
        assert(vec_views(pieces@).take(i + 1) =~= vec_views(pieces@).take(i as int).push(vec_views(pieces@)[i as int]));
        i = i + 1;
    }
    assert(vec_views(pieces@).take(pieces@.len() as int) =~= vec_views(pieces@));
    texts
}

/// How far the update has come within the current file.
pub open spec fn phase_rank(p: Phase) -> int {
    match p {
        Phase::Reading => 0,
        Phase::Checking { .. } => 1,
        Phase::Embedding { index, .. } => 2 + 2 * index,
        Phase::Inserting { index, .. } => 3 + 2 * index,
        Phase::Done => 0,
    }
}

/// `t` is further along than `s`: a later file, or the same file at a later
/// phase.
pub open spec fn further(t: UpdateState, s: UpdateState) -> bool {
    ||| t.current > s.current
    ||| t.current == s.current && phase_rank(t.phase) > phase_rank(s.phase)
}

/// Whether `e` answers the action the update waits on in state `s`: the
/// content of the file to read, the stored hashes of the file being checked,
/// the outcome of the pending embedding, or the end of the pending insertion.
pub open spec fn answers(s: UpdateState, e: EventModel) -> bool {
    match s.phase {
        Phase::Reading => e is FileRead,
        Phase::Checking { .. } => e is StoredHashes,
        Phase::Embedding { .. } => e is Embedded,
        Phase::Inserting { .. } => e is Inserted,
        Phase::Done => false,
    }
}

/// The highest rank the current file can reach: one step per chunk for its
/// embedding and one for its insertion, after reading and checking it.
pub open spec fn rank_bound(p: Phase) -> int {
    match p {
        Phase::Embedding { texts, .. } => 1 + 2 * texts.len() as int,
        Phase::Inserting { texts, .. } => 1 + 2 * texts.len() as int,
        _ => 1,
    }
}

/// Every event that answers the pending action moves the update further
/// along: to a later file, or to a later phase of the same file, whose rank
/// stays within the bound set by the file's chunks, which do not change
/// while the file is handled. Every other event is ignored and leaves the
/// state unchanged. The update stays well formed either way, so a driver
/// that answers each action ends after finitely many events.
pub proof fn lemma_step_progress(s: UpdateState, e: EventModel)
    requires
        well_formed(s),
    ensures
        well_formed(transition(s, e)),
        answers(s, e) ==> further(transition(s, e), s),
        !answers(s, e) ==> transition(s, e) == s,
        transition(s, e).files == s.files,
        phase_rank(s.phase) <= rank_bound(s.phase),
        transition(s, e).current == s.current ==> match (s.phase, transition(s, e).phase) {
            (Phase::Embedding { texts: a, .. }, Phase::Embedding { texts: b, .. }) => a == b,
            (Phase::Embedding { texts: a, .. }, Phase::Inserting { texts: b, .. }) => a == b,
            (Phase::Inserting { texts: a, .. }, Phase::Embedding { texts: b, .. }) => a == b,
            _ => true,
        },
{
    match s.phase {
        Phase::Checking { content, hash } => {
            lemma_chunk_count(content);
        },
        _ => {},
    }
}

proof fn lemma_chunk_count(content: Seq<char>)
    ensures
        chunks_of(content, CHUNK_SIZE as nat).len() > 0 <==> content.len() > 0,
{
    crate::rag::lemma_chunk_sizes(content, CHUNK_SIZE as nat);
}

/// Reading a file records its name with the fingerprint of its content, and
/// the store is asked next for the hashes it holds for that file.
pub proof fn lemma_read_records_hash(s: UpdateState, content: Seq<char>)
    requires
        well_formed(s),
        s.phase is Reading,
    ensures
        transition(s, EventModel::FileRead(Some(content))).hashes == s.hashes.push(
            (s.files[s.current], content_hash(content)),
        ),
        pending(transition(s, EventModel::FileRead(Some(content)))) == ActionModel::LookupStored(
            s.files[s.current],
            content_hash(content),
        ),
{
}

/// A file whose fingerprint is among the hashes stored for it is skipped:
/// nothing of it is embedded or inserted, and the update moves on to the
/// next file (or finishes).
pub proof fn lemma_unchanged_file_is_skipped(
    s: UpdateState,
    content: Seq<char>,
    hash: Seq<char>,
    stored: Seq<Seq<char>>,
)
    requires
        well_formed(s),
        s.phase == (Phase::Checking { content, hash }),
        stored.contains(hash),
    ensures
        transition(s, EventModel::StoredHashes(Some(stored))) == advance(s),
        pending(transition(s, EventModel::StoredHashes(Some(stored)))) is ReadFile || pending(
            transition(s, EventModel::StoredHashes(Some(stored))),
        ) is Finish,
{
}

/// A file that has to be indexed again, with some content, is embedded chunk
/// by chunk starting from the first; the chunks put back together are the
/// file's content.
pub proof fn lemma_changed_file_is_embedded(
    s: UpdateState,
    content: Seq<char>,
    hash: Seq<char>,
    stored: Option<Seq<Seq<char>>>,
)
    requires
        well_formed(s),
        s.phase == (Phase::Checking { content, hash }),
        needs_update(stored, hash),
        content.len() > 0,
    ensures
        ({
            let t = transition(s, EventModel::StoredHashes(stored));
            &&& t.phase matches Phase::Embedding { texts, index, .. } && index == 0
                && texts.flatten() == content
            &&& pending(t) == ActionModel::Embed(
                s.files[s.current],
                hash,
                chunks_of(content, CHUNK_SIZE as nat)[0],
            )
        }),
{
    lemma_chunk_count(content);
    crate::rag::lemma_chunks_rejoin(content, CHUNK_SIZE as nat);
}

/// The state after the events `es` are reported one after the other.
pub open spec fn run(s: UpdateState, es: Seq<EventModel>) -> UpdateState
    decreases es.len(),
{
    if es.len() == 0 {
        s
    } else {
        run(transition(s, es[0]), es.drop_first())
    }
}

/// The actions the update asks for while the events `es` are reported: the
/// pending action before each event.
pub open spec fn actions(s: UpdateState, es: Seq<EventModel>) -> Seq<ActionModel>
    decreases es.len(),
{
    if es.len() == 0 {
        seq![]
    } else {
        seq![pending(s)] + actions(transition(s, es[0]), es.drop_first())
    }
}

/// `n` chunks in a row embedded and inserted without a failure.
pub open spec fn successes(n: nat) -> Seq<EventModel>
    decreases n,
{
    if n == 0 {
        seq![]
    } else {
        seq![EventModel::Embedded(true), EventModel::Inserted] + successes((n - 1) as nat)
    }
}

/// Each text of `texts` embedded and then inserted, in order, for the file
/// `f` whose content hashes to `h`.
pub open spec fn embed_and_insert(f: Seq<char>, h: Seq<char>, texts: Seq<Seq<char>>) -> Seq<
    ActionModel,
>
    decreases texts.len(),
{
    if texts.len() == 0 {
        seq![]
    } else {
        seq![ActionModel::Embed(f, h, texts[0]), ActionModel::Insert(f, h, texts[0])]
            + embed_and_insert(f, h, texts.drop_first())
    }
}

/// The events of files read one after the other, each answered by the
/// hashes the store holds for it.
pub open spec fn reads(contents: Seq<Seq<char>>, stored: Seq<Seq<Seq<char>>>) -> Seq<EventModel>
    decreases contents.len(),
{
    if contents.len() == 0 || stored.len() == 0 {
        seq![]
    } else {
        seq![EventModel::FileRead(Some(contents[0])), EventModel::StoredHashes(Some(stored[0]))]
            + reads(contents.drop_first(), stored.drop_first())
    }
}

/// Events reported in two parts give the actions of the first part followed
/// by those of the second, and end where the second part leaves the state.
pub proof fn lemma_run_concat(s: UpdateState, a: Seq<EventModel>, b: Seq<EventModel>)
    ensures
        run(s, a + b) == run(run(s, a), b),
        actions(s, a + b) == actions(s, a) + actions(run(s, a), b),
    decreases a.len(),
{
    if a.len() == 0 {
        assert(a + b =~= b);
    } else {
        assert((a + b)[0] == a[0]);
        assert((a + b).drop_first() =~= a.drop_first() + b);
        lemma_run_concat(transition(s, a[0]), a.drop_first(), b);
    }
}

/// Two events reported before the others: their two actions come first.
proof fn lemma_run_two(s: UpdateState, a: EventModel, b: EventModel, rest: Seq<EventModel>)
    ensures
        ({
            let s1 = transition(s, a);
            let s2 = transition(s1, b);
            &&& actions(s, seq![a, b] + rest) == seq![pending(s), pending(s1)] + actions(s2, rest)
            &&& run(s, seq![a, b] + rest) == run(s2, rest)
        }),
{
    let es = seq![a, b] + rest;
    let s1 = transition(s, a);
    let s2 = transition(s1, b);
    assert(es[0] == a);
    let es1 = es.drop_first();
    assert(es1 =~= seq![b] + rest);
    assert(es1[0] == b);
    assert(es1.drop_first() =~= rest);
    assert(actions(s, es) == seq![pending(s)] + actions(s1, es1));
    assert(actions(s1, es1) == seq![pending(s1)] + actions(s2, rest));
    assert(run(s, es) == run(s1, es1));
    assert(run(s1, es1) == run(s2, rest));
    assert(seq![pending(s)] + (seq![pending(s1)] + actions(s2, rest)) =~= seq![pending(s), pending(s1)]
        + actions(s2, rest));
}

/// From the embedding of chunk `k`, when every embedding and insertion
/// succeeds, the update embeds and inserts the chunks from `k` on, each once
/// and in order, and then moves on to the next file.
pub proof fn lemma_chunks_embedded_in_order(
    s: UpdateState,
    hash: Seq<char>,
    texts: Seq<Seq<char>>,
    k: int,
)
    requires
        well_formed(s),
        s.phase == (Phase::Embedding { hash, texts, index: k }),
    ensures
        actions(s, successes((texts.len() - k) as nat)) == embed_and_insert(
            s.files[s.current],
            hash,
            texts.skip(k),
        ),
        run(s, successes((texts.len() - k) as nat)) == advance(s),
    decreases texts.len() - k,
{
    let n = (texts.len() - k) as nat;
    let rest = successes((n - 1) as nat);
    let f = s.files[s.current];
    assert(successes(n) == seq![EventModel::Embedded(true), EventModel::Inserted] + rest);
    lemma_run_two(s, EventModel::Embedded(true), EventModel::Inserted, rest);
    let s1 = transition(s, EventModel::Embedded(true));
    assert(s1.phase == (Phase::Inserting { hash, texts, index: k }));
    let s2 = transition(s1, EventModel::Inserted);
    assert(texts.skip(k)[0] == texts[k]);
    assert(texts.skip(k).drop_first() =~= texts.skip(k + 1));
    assert(embed_and_insert(f, hash, texts.skip(k)) == seq![
        ActionModel::Embed(f, hash, texts[k]),
        ActionModel::Insert(f, hash, texts[k]),
    ] + embed_and_insert(f, hash, texts.skip(k + 1)));
    if k + 1 < texts.len() {
        assert(s2 == UpdateState { phase: Phase::Embedding { hash, texts, index: k + 1 }, ..s });
        lemma_chunks_embedded_in_order(s2, hash, texts, k + 1);
        assert(advance(s2) == advance(s));
    } else {
        assert(rest =~= Seq::<EventModel>::empty());
        assert(texts.skip(k + 1) =~= Seq::<Seq<char>>::empty());
        assert(embed_and_insert(f, hash, texts.skip(k + 1)) =~= Seq::<ActionModel>::empty());
        assert(s2 == advance(s));
        assert(actions(s2, rest) =~= Seq::<ActionModel>::empty());
    }
}

/// A file read with some content that has to be indexed again, whose
/// embeddings and insertions all succeed: the update reads it, asks the store
/// for its hashes, then embeds and inserts each of its chunks once, in order,
/// and moves on to the next file. The chunks put back together are the
/// file's content, and the file's hash is recorded.
pub proof fn lemma_changed_file_run(
    s: UpdateState,
    content: Seq<char>,
    stored: Option<Seq<Seq<char>>>,
)
    requires
        well_formed(s),
        s.phase is Reading,
        needs_update(stored, content_hash(content)),
        content.len() > 0,
    ensures
        ({
            let f = s.files[s.current];
            let h = content_hash(content);
            let texts = chunks_of(content, CHUNK_SIZE as nat);
            let es = seq![EventModel::FileRead(Some(content)), EventModel::StoredHashes(stored)]
                + successes(texts.len());
            &&& texts.flatten() == content
            &&& actions(s, es) == seq![ActionModel::ReadFile(f), ActionModel::LookupStored(f, h)]
                + embed_and_insert(f, h, texts)
            &&& run(s, es) == advance(UpdateState { hashes: s.hashes.push((f, h)), ..s })
        }),
{
    let f = s.files[s.current];
    let h = content_hash(content);
    let texts = chunks_of(content, CHUNK_SIZE as nat);
    lemma_chunk_count(content);
    crate::rag::lemma_chunks_rejoin(content, CHUNK_SIZE as nat);
    let tail = successes(texts.len());
    lemma_run_two(s, EventModel::FileRead(Some(content)), EventModel::StoredHashes(stored), tail);
    let s1 = transition(s, EventModel::FileRead(Some(content)));
    let s2 = transition(s1, EventModel::StoredHashes(stored));
    assert(s2.phase == (Phase::Embedding { hash: h, texts, index: 0 }));
    lemma_chunks_embedded_in_order(s2, h, texts, 0);
    assert(texts.skip(0) =~= texts);
    assert(advance(s2) == advance(UpdateState { hashes: s.hashes.push((f, h)), ..s }));
}

/// When the store holds, for every file still to handle, a row with the
/// fingerprint of the file's content (as after an update that indexed every
/// file, with nothing changed since), the update only reads the files and
/// asks the store for their hashes: it embeds nothing, inserts nothing, and
/// finishes. This holds from the start of an update too (`initial`), also
/// over no file at all.
pub proof fn lemma_unchanged_files_run(
    s: UpdateState,
    contents: Seq<Seq<char>>,
    stored: Seq<Seq<Seq<char>>>,
)
    requires
        well_formed(s),
        s.phase is Reading || s.phase is Done,
        contents.len() == stored.len(),
        contents.len() == s.files.len() - s.current,
        forall|i: int|
            0 <= i < contents.len() ==> #[trigger] stored[i].contains(content_hash(contents[i])),
    ensures
        run(s, reads(contents, stored)).phase is Done,
        actions(s, reads(contents, stored)).len() == 2 * contents.len(),
        forall|j: int|
            0 <= j < actions(s, reads(contents, stored)).len() ==> (#[trigger] actions(
                s,
                reads(contents, stored),
            )[j] is ReadFile || actions(s, reads(contents, stored))[j] is LookupStored),
    decreases contents.len(),
{
    let es = reads(contents, stored);
    if contents.len() == 0 {
        assert(es =~= Seq::<EventModel>::empty());
    } else {
        let tail = reads(contents.drop_first(), stored.drop_first());
        let a = EventModel::FileRead(Some(contents[0]));
        let b = EventModel::StoredHashes(Some(stored[0]));
        assert(es == seq![a, b] + tail);
        lemma_run_two(s, a, b, tail);
        let s1 = transition(s, a);
        let h = content_hash(contents[0]);
        assert(stored[0].contains(h));
        let s2 = transition(s1, b);
        assert(s2 == advance(s1));
        let front = seq![pending(s), pending(s1)];
        if contents.len() == 1 {
            assert(tail =~= Seq::<EventModel>::empty());
            assert(actions(s2, tail) =~= Seq::<ActionModel>::empty());
            assert(actions(s, es) =~= front);
            assert(run(s, es) == s2);
        } else {
            assert forall|i: int| 0 <= i < contents.drop_first().len() implies #[trigger] stored.drop_first()[i].contains(
                content_hash(contents.drop_first()[i]),
            ) by {
                assert(stored.drop_first()[i] == stored[i + 1]);
                assert(contents.drop_first()[i] == contents[i + 1]);
            }
            lemma_unchanged_files_run(s2, contents.drop_first(), stored.drop_first());
            let back = actions(s2, tail);
            assert forall|j: int| 0 <= j < actions(s, es).len() implies (#[trigger] actions(s, es)[j] is ReadFile
                || actions(s, es)[j] is LookupStored) by {
                if j >= 2 {
                    assert(actions(s, es)[j] == back[j - 2]);
                }
            }
        }
    }
}

/// A failed embedding skips only that chunk: the update goes on with the
/// next chunk of the same file, with the same fingerprint and chunks, and
/// asks for its embedding; after the file's last chunk it moves on to the
/// next file.
pub proof fn lemma_failed_embedding_skips_one_chunk(
    s: UpdateState,
    hash: Seq<char>,
    texts: Seq<Seq<char>>,
    index: int,
)
    requires
        well_formed(s),
        s.phase == (Phase::Embedding { hash, texts, index }),
    ensures
        index + 1 < texts.len() ==> {
            &&& transition(s, EventModel::Embedded(false)) == (UpdateState {
                phase: Phase::Embedding { hash, texts, index: index + 1 },
                ..s
            })
            &&& pending(transition(s, EventModel::Embedded(false))) == ActionModel::Embed(
                s.files[s.current],
                hash,
                texts[index + 1],
            )
        },
        index + 1 == texts.len() ==> {
            &&& transition(s, EventModel::Embedded(false)).hashes == s.hashes
            &&& if s.current + 1 < s.files.len() {
                &&& transition(s, EventModel::Embedded(false)).current == s.current + 1
                &&& pending(transition(s, EventModel::Embedded(false))) == ActionModel::ReadFile(
                    s.files[s.current + 1],
                )
            } else {
                pending(transition(s, EventModel::Embedded(false))) == ActionModel::Finish
            }
        },
{
}

/// The events of the chunks of one file, one outcome per chunk: a chunk
/// whose embedding succeeds (`true`) is then inserted; a chunk whose
/// embedding fails (`false`) is not.
pub open spec fn attempts(oks: Seq<bool>) -> Seq<EventModel>
    decreases oks.len(),
{
    if oks.len() == 0 {
        seq![]
    } else if oks[0] {
        seq![EventModel::Embedded(true), EventModel::Inserted] + attempts(oks.drop_first())
    } else {
        seq![EventModel::Embedded(false)] + attempts(oks.drop_first())
    }
}

/// The texts that the actions ask to embed, in order.
pub open spec fn embedded_texts(acts: Seq<ActionModel>) -> Seq<Seq<char>>
    decreases acts.len(),
{
    if acts.len() == 0 {
        seq![]
    } else {
        let rest = embedded_texts(acts.drop_first());
        match acts[0] {
            ActionModel::Embed(_, _, t) => seq![t] + rest,
            _ => rest,
        }
    }
}

/// The texts that the actions ask to insert, in order.
pub open spec fn inserted_texts(acts: Seq<ActionModel>) -> Seq<Seq<char>>
    decreases acts.len(),
{
    if acts.len() == 0 {
        seq![]
    } else {
        let rest = inserted_texts(acts.drop_first());
        match acts[0] {
            ActionModel::Insert(_, _, t) => seq![t] + rest,
            _ => rest,
        }
    }
}

/// The texts whose outcome is `true`, in order.
pub open spec fn succeeded(texts: Seq<Seq<char>>, oks: Seq<bool>) -> Seq<Seq<char>>
    decreases oks.len(),
{
    if oks.len() == 0 || texts.len() == 0 {
        seq![]
    } else if oks[0] {
        seq![texts[0]] + succeeded(texts.drop_first(), oks.drop_first())
    } else {
        succeeded(texts.drop_first(), oks.drop_first())
    }
}

proof fn lemma_texts_of_two(a: ActionModel, b: ActionModel, rest: Seq<ActionModel>)
    ensures
        embedded_texts(seq![a, b] + rest) == embedded_texts(seq![a]) + embedded_texts(seq![b])
            + embedded_texts(rest),
        inserted_texts(seq![a, b] + rest) == inserted_texts(seq![a]) + inserted_texts(seq![b])
            + inserted_texts(rest),
{
    lemma_texts_of_one(a, seq![b] + rest);
    lemma_texts_of_one(b, rest);
    assert((seq![a, b] + rest) =~= seq![a] + (seq![b] + rest));
    assert(embedded_texts(seq![a]) + (embedded_texts(seq![b]) + embedded_texts(rest))
        =~= embedded_texts(seq![a]) + embedded_texts(seq![b]) + embedded_texts(rest));
    assert(inserted_texts(seq![a]) + (inserted_texts(seq![b]) + inserted_texts(rest))
        =~= inserted_texts(seq![a]) + inserted_texts(seq![b]) + inserted_texts(rest));
}

proof fn lemma_texts_of_one(a: ActionModel, rest: Seq<ActionModel>)
    ensures
        embedded_texts(seq![a] + rest) == embedded_texts(seq![a]) + embedded_texts(rest),
        inserted_texts(seq![a] + rest) == inserted_texts(seq![a]) + inserted_texts(rest),
        embedded_texts(seq![a]) == match a {
            ActionModel::Embed(_, _, t) => seq![t],
            _ => Seq::<Seq<char>>::empty(),
        },
        inserted_texts(seq![a]) == match a {
            ActionModel::Insert(_, _, t) => seq![t],
            _ => Seq::<Seq<char>>::empty(),
        },
{
    let acts = seq![a] + rest;
    assert(acts[0] == a);
    assert(acts.drop_first() =~= rest);
    assert(seq![a].drop_first() =~= Seq::<ActionModel>::empty());
    assert(embedded_texts(Seq::<ActionModel>::empty()) =~= Seq::<Seq<char>>::empty());
    assert(inserted_texts(Seq::<ActionModel>::empty()) =~= Seq::<Seq<char>>::empty());
    match a {
        ActionModel::Embed(_, _, t) => {
            assert(embedded_texts(seq![a]) =~= seq![t]);
            assert(inserted_texts(seq![a]) =~= Seq::<Seq<char>>::empty());
        },
        ActionModel::Insert(_, _, t) => {
            assert(inserted_texts(seq![a]) =~= seq![t]);
            assert(embedded_texts(seq![a]) =~= Seq::<Seq<char>>::empty());
        },
        _ => {
            assert(embedded_texts(seq![a]) =~= Seq::<Seq<char>>::empty());
            assert(inserted_texts(seq![a]) =~= Seq::<Seq<char>>::empty());
        },
    }
}

/// From the embedding of chunk `k`, whatever the outcome of each embedding:
/// every chunk from `k` on is asked to be embedded exactly once and in
/// order, exactly the chunks whose embedding succeeded are inserted, in
/// order, and then the update moves on to the next file.
pub proof fn lemma_every_chunk_is_attempted(
    s: UpdateState,
    hash: Seq<char>,
    texts: Seq<Seq<char>>,
    k: int,
    oks: Seq<bool>,
)
    requires
        well_formed(s),
        s.phase == (Phase::Embedding { hash, texts, index: k }),
        oks.len() == texts.len() - k,
    ensures
        embedded_texts(actions(s, attempts(oks))) == texts.skip(k),
        inserted_texts(actions(s, attempts(oks))) == succeeded(texts.skip(k), oks),
        run(s, attempts(oks)) == advance(s),
    decreases oks.len(),
{
    let f = s.files[s.current];
    let rest = attempts(oks.drop_first());
    let t = texts[k];
    assert(texts.skip(k)[0] == t);
    assert(texts.skip(k).drop_first() =~= texts.skip(k + 1));
    let next = UpdateState { phase: Phase::Embedding { hash, texts, index: k + 1 }, ..s };
    if oks[0] {
        assert(attempts(oks) == seq![EventModel::Embedded(true), EventModel::Inserted] + rest);
        lemma_run_two(s, EventModel::Embedded(true), EventModel::Inserted, rest);
        let s1 = transition(s, EventModel::Embedded(true));
        let s2 = transition(s1, EventModel::Inserted);
        lemma_texts_of_two(ActionModel::Embed(f, hash, t), ActionModel::Insert(f, hash, t), actions(s2, rest));
        lemma_texts_of_one(ActionModel::Embed(f, hash, t), Seq::<ActionModel>::empty());
        lemma_texts_of_one(ActionModel::Insert(f, hash, t), Seq::<ActionModel>::empty());
        lemma_texts_of_one(ActionModel::Embed(f, hash, t), Seq::<ActionModel>::empty());
        lemma_texts_of_one(ActionModel::Insert(f, hash, t), Seq::<ActionModel>::empty());
        if k + 1 < texts.len() {
            assert(s2 == next);
            lemma_every_chunk_is_attempted(next, hash, texts, k + 1, oks.drop_first());
            assert(advance(next) == advance(s));
        } else {
            assert(oks.drop_first() =~= Seq::<bool>::empty());
            assert(rest =~= Seq::<EventModel>::empty());
            assert(s2 == advance(s));
            assert(texts.skip(k + 1) =~= Seq::<Seq<char>>::empty());
        }
        assert(embedded_texts(actions(s, attempts(oks))) =~= texts.skip(k));
        assert(succeeded(texts.skip(k), oks) == seq![t] + succeeded(texts.skip(k + 1), oks.drop_first()));
        if k + 1 >= texts.len() {
            assert(succeeded(texts.skip(k + 1), oks.drop_first()) =~= Seq::<Seq<char>>::empty());
            assert(inserted_texts(actions(s2, rest)) =~= Seq::<Seq<char>>::empty());
        }
        assert(inserted_texts(actions(s, attempts(oks))) =~= succeeded(texts.skip(k), oks));
    } else {
        let es = attempts(oks);
        assert(es == seq![EventModel::Embedded(false)] + rest);
        assert(es[0] == EventModel::Embedded(false));
        assert(es.drop_first() =~= rest);
        let s1 = transition(s, EventModel::Embedded(false));
        assert(actions(s, es) == seq![pending(s)] + actions(s1, rest));
        assert(run(s, es) == run(s1, rest));
        lemma_texts_of_one(ActionModel::Embed(f, hash, t), actions(s1, rest));
        lemma_texts_of_one(ActionModel::Embed(f, hash, t), Seq::<ActionModel>::empty());
        lemma_texts_of_one(ActionModel::Embed(f, hash, t), Seq::<ActionModel>::empty());
        if k + 1 < texts.len() {
            assert(s1 == next);
            lemma_every_chunk_is_attempted(next, hash, texts, k + 1, oks.drop_first());
            assert(advance(next) == advance(s));
        } else {
            assert(oks.drop_first() =~= Seq::<bool>::empty());
            assert(rest =~= Seq::<EventModel>::empty());
            assert(s1 == advance(s));
            assert(texts.skip(k + 1) =~= Seq::<Seq<char>>::empty());
        }
        assert(embedded_texts(actions(s, es)) =~= texts.skip(k));
        assert(succeeded(texts.skip(k), oks) == succeeded(texts.skip(k + 1), oks.drop_first()));
        if k + 1 >= texts.len() {
            assert(succeeded(texts.skip(k + 1), oks.drop_first()) =~= Seq::<Seq<char>>::empty());
            assert(inserted_texts(actions(s1, rest)) =~= Seq::<Seq<char>>::empty());
        }
        assert(inserted_texts(actions(s, es)) =~= succeeded(texts.skip(k), oks));
    }
}

} // verus!
