//! The indexing rules of the knowledge base: which files are taken, how their
//! text is cut into chunks, how a file's content is fingerprinted, and when a
//! file has to be indexed again.
use crate::digest::{content_hash, content_hash_of, hex_lower, sha256_digest};
use crate::pattern::{regex_compiles, regex_is_match, Pattern, PatternError};
use vstd::prelude::*;

verus! {

/// Number of characters in every chunk but the last one of a file.
pub const CHUNK_SIZE: usize = 4096;

/// `s` cut into consecutive pieces of `n` elements; the last piece holds what
/// is left (between 1 and `n` elements). An empty sequence has no pieces.
pub open spec fn chunks_of<A>(s: Seq<A>, n: nat) -> Seq<Seq<A>>
    decreases s.len(),
{
    if s.len() == 0 || n == 0 {
        seq![]
    } else if s.len() <= n {
        seq![s]
    } else {
        seq![s.take(n as int)] + chunks_of(s.skip(n as int), n)
    }
}

/// The views of a sequence of vectors.
pub open spec fn vec_views<A>(v: Seq<Vec<A>>) -> Seq<Seq<A>> {
    v.map_values(|x: Vec<A>| x@)
}

/// The chunks, put back together, are the original sequence.
pub proof fn lemma_chunks_rejoin<A>(s: Seq<A>, n: nat)
    requires
        n > 0,
    ensures
        chunks_of(s, n).flatten() == s,
    decreases s.len(),
{
    if s.len() == 0 {
    } else if s.len() <= n {
        assert(chunks_of(s, n).drop_first() =~= Seq::<Seq<A>>::empty());
        assert(Seq::<Seq<A>>::empty().flatten() =~= Seq::<A>::empty());
        assert(chunks_of(s, n).flatten() =~= s);
    } else {
        lemma_chunks_rejoin(s.skip(n as int), n);
        let c = chunks_of(s, n);
        assert(c.first() == s.take(n as int));
        assert(c.drop_first() =~= chunks_of(s.skip(n as int), n));
        assert(s.take(n as int) + s.skip(n as int) =~= s);
    }
}

/// Every chunk but the last holds exactly `n` elements; the last holds between
/// 1 and `n`.
pub proof fn lemma_chunk_sizes<A>(s: Seq<A>, n: nat)
    requires
        n > 0,
    ensures
        forall|i: int|
            0 <= i < chunks_of(s, n).len() ==> 0 < #[trigger] chunks_of(s, n)[i].len() <= n,
        forall|i: int|
            0 <= i < chunks_of(s, n).len() - 1 ==> #[trigger] chunks_of(s, n)[i].len() == n,
        chunks_of(s, n).len() == 0 <==> s.len() == 0,
    decreases s.len(),
{
    if s.len() > n {
        lemma_chunk_sizes(s.skip(n as int), n);
        let rest = chunks_of(s.skip(n as int), n);
        assert forall|i: int| 0 < i < chunks_of(s, n).len() implies #[trigger] chunks_of(s, n)[i]
            == rest[i - 1] by {}
    }
}

/// Cuts `content` into chunks of `CHUNK_SIZE` characters.
pub fn chunks(content: &str) -> (r: Vec<Vec<char>>)
    ensures
        vec_views(r@) == chunks_of(content@, CHUNK_SIZE as nat),
{
    let chars = crate::text::chars_of(content);
    let len = chars.len();
    let mut r: Vec<Vec<char>> = Vec::new();
    let mut start: usize = 0;
    assert(chars@.skip(0) =~= chars@);
    assert(vec_views(r@) + chunks_of(chars@, CHUNK_SIZE as nat) =~= chunks_of(chars@, CHUNK_SIZE as nat));
    while start < len
        invariant
            len == chars@.len(),
            chars@ == content@,
            start <= len,
            vec_views(r@) + chunks_of(chars@.skip(start as int), CHUNK_SIZE as nat)
                == chunks_of(chars@, CHUNK_SIZE as nat),
        decreases len - start,
    {
        let end: usize = if len - start > CHUNK_SIZE {
            start + CHUNK_SIZE
        } else {
            len
        };
        let mut piece: Vec<char> = Vec::new();
        let mut j: usize = start;
        while j < end
            invariant
                start <= j <= end <= len,
                len == chars@.len(),
                piece@ == chars@.subrange(start as int, j as int),
            decreases end - j,
        {
            piece.push(chars[j]);
            assert(chars@.subrange(start as int, j + 1) =~= chars@.subrange(start as int, j as int).push(chars@[j as int]));
            j = j + 1;
        }
        let ghost rest = chars@.skip(start as int);
        let ghost old_r = r@;
        r.push(piece);
        proof {
            if rest.len() <= CHUNK_SIZE {
                assert(piece@ =~= rest);
                assert(chars@.skip(end as int) =~= Seq::<char>::empty());
                assert(chunks_of(rest, CHUNK_SIZE as nat) == seq![rest]);
            } else {
                assert(piece@ =~= rest.take(CHUNK_SIZE as int));
                assert(rest.skip(CHUNK_SIZE as int) =~= chars@.skip(end as int));
            }
            assert(vec_views(r@) =~= vec_views(old_r).push(piece@));
            assert(vec_views(r@) + chunks_of(chars@.skip(end as int), CHUNK_SIZE as nat)
                =~= vec_views(old_r) + chunks_of(rest, CHUNK_SIZE as nat));
        }
        start = end;
    }
    assert(chunks_of(chars@.skip(len as int), CHUNK_SIZE as nat) =~= Seq::<Seq<char>>::empty());
    assert(vec_views(r@) =~= vec_views(r@) + Seq::<Seq<char>>::empty());
    r
}

/// The views of a sequence of strings.
pub open spec fn strings_view(v: Seq<String>) -> Seq<Seq<char>> {
    v.map_values(|x: String| x@)
}

/// The view of an optional list of strings.
pub open spec fn opt_strings_view(o: Option<Vec<String>>) -> Option<Seq<Seq<char>>> {
    match o {
        Some(v) => Some(strings_view(v@)),
        None => None,
    }
}

/// Whether a file whose content hashes to `hash` must be indexed again, given
/// the hashes stored for it (`None` when the store could not be asked): only
/// when no stored row carries that hash.
pub open spec fn needs_update(stored: Option<Seq<Seq<char>>>, hash: Seq<char>) -> bool {
    match stored {
        Some(hashes) => !hashes.contains(hash),
        None => true,
    }
}

/// A file is indexed again exactly when the store could not be asked, or
/// when none of the hashes it holds for the file equals the file's current
/// hash; one stored row with that hash is enough to skip it.
pub proof fn lemma_update_unless_hash_stored(stored: Seq<Seq<char>>, hash: Seq<char>)
    ensures
        needs_update(None, hash),
        needs_update(Some(stored), hash) <==> forall|i: int|
            0 <= i < stored.len() ==> #[trigger] stored[i] != hash,
        (exists|i: int| 0 <= i < stored.len() && #[trigger] stored[i] == hash) ==> !needs_update(
            Some(stored),
            hash,
        ),
{
    if !needs_update(Some(stored), hash) {
        let k = choose|k: int| 0 <= k < stored.len() && stored[k] == hash;
        assert(stored[k] == hash);
    }
    if exists|i: int| 0 <= i < stored.len() && #[trigger] stored[i] == hash {
        let k = choose|k: int| 0 <= k < stored.len() && stored[k] == hash;
        assert(stored.contains(hash));
    }
}

/// Whether a file name denotes a hidden entry: it starts with a dot. A name
/// that is not valid Unicode (`None`) is not hidden.
pub open spec fn hidden_name(name: Option<Seq<char>>) -> bool {
    match name {
        Some(n) => n.len() > 0 && n[0] == '.',
        None => false,
    }
}

/// The pattern every indexed file name must match.
pub open spec fn supported_source() -> Seq<char> {
    ".*.md"@
}

/// The number of times `p` occurs in `s`.
pub open spec fn occurrences(s: Seq<Seq<char>>, p: Seq<char>) -> nat
    decreases s.len(),
{
    if s.len() == 0 {
        0
    } else {
        occurrences(s.drop_last(), p) + if s.last() == p {
            1nat
        } else {
            0nat
        }
    }
}

/// One entry met while walking a folder: its path as displayed, and whether
/// it is a directory.
pub struct WalkEntry {
    pub path: String,
    pub is_dir: bool,
}

/// The knowledge base's indexing rules: the folders it reads and the
/// patterns that decide which files it takes.
pub struct Rag {
    paths: Vec<String>,
    include_pattern: Pattern,
    exclude_pattern: Pattern,
    supported: Pattern,
}

impl Rag {
    /// The folders that are walked.
    pub closed spec fn spec_paths(&self) -> Seq<String> {
        self.paths@
    }

    /// The pattern a file name must match to be taken.
    pub closed spec fn spec_include(&self) -> Seq<char> {
        self.include_pattern@
    }

    /// The pattern that excludes a file name.
    pub closed spec fn spec_exclude(&self) -> Seq<char> {
        self.exclude_pattern@
    }

    /// The pattern of the supported file types.
    pub closed spec fn spec_supported(&self) -> Seq<char> {
        self.supported@
    }

    /// Whether a file named `filename` is taken: not excluded, included, and
    /// of a supported type.
    pub open spec fn selects(&self, filename: Seq<char>) -> bool {
        &&& !regex_is_match(self.spec_exclude(), filename)
        &&& regex_is_match(self.spec_include(), filename)
        &&& regex_is_match(self.spec_supported(), filename)
    }

    /// A path that the exclusion pattern matches anywhere is never taken,
    /// whatever the other patterns say; a path is taken only when the
    /// inclusion and supported-type patterns both match it.
    pub proof fn lemma_excluded_never_selected(&self, filename: Seq<char>)
        ensures
            regex_is_match(self.spec_exclude(), filename) ==> !self.selects(filename),
            self.selects(filename) ==> regex_is_match(self.spec_include(), filename)
                && regex_is_match(self.spec_supported(), filename),
    {
    }

    /// The paths of the entries taken from a walk, in walking order:
    /// directories are skipped, files are kept when `selects` holds.
    pub open spec fn collected(&self, entries: Seq<WalkEntry>) -> Seq<Seq<char>>
        decreases entries.len(),
    {
        if entries.len() == 0 {
            seq![]
        } else {
            let prev = self.collected(entries.drop_last());
            let e = entries.last();
            if !e.is_dir && self.selects(e.path@) {
                prev.push(e.path@)
            } else {
                prev
            }
        }
    }

    /// Every file taken from a walk is a walked entry that is not a directory
    /// and whose path the rules select; and every such entry is taken.
    pub proof fn lemma_collected_are_selected(&self, entries: Seq<WalkEntry>)
        ensures
            forall|i: int|
                0 <= i < self.collected(entries).len() ==> self.selects(
                    #[trigger] self.collected(entries)[i],
                ) && exists|j: int|
                    0 <= j < entries.len() && !entries[j].is_dir && entries[j].path@
                        == self.collected(entries)[i],
            forall|j: int|
                0 <= j < entries.len() && !(#[trigger] entries[j]).is_dir && self.selects(
                    entries[j].path@,
                ) ==> self.collected(entries).contains(entries[j].path@),
        decreases entries.len(),
    {
        if entries.len() > 0 {
            let init = entries.drop_last();
            self.lemma_collected_are_selected(init);
            let prev = self.collected(init);
            let now = self.collected(entries);
            assert forall|i: int| 0 <= i < now.len() implies self.selects(#[trigger] now[i])
                && exists|j: int|
                0 <= j < entries.len() && !entries[j].is_dir && entries[j].path@ == now[i] by {
                if i < prev.len() {
                    assert(now[i] == prev[i]);
                    let j = choose|j: int|
                        0 <= j < init.len() && !init[j].is_dir && init[j].path@ == prev[i];
                    assert(entries[j] == init[j]);
                } else {
                    assert(entries[entries.len() - 1] == entries.last());
                }
            }
            assert forall|j: int|
                0 <= j < entries.len() && !(#[trigger] entries[j]).is_dir && self.selects(
                    entries[j].path@,
                ) implies now.contains(entries[j].path@) by {
                if j < entries.len() - 1 {
                    assert(init[j] == entries[j]);
                    assert(prev.contains(entries[j].path@));
                    let k = choose|k: int| 0 <= k < prev.len() && prev[k] == entries[j].path@;
                    assert(now[k] == prev[k]);
                } else {
                    assert(now[now.len() - 1] == entries[j].path@);
                }
            }
        }
    }

    /// The number of entries with path `p` that the rules take.
    pub open spec fn kept_count(&self, entries: Seq<WalkEntry>, p: Seq<char>) -> nat
        decreases entries.len(),
    {
        if entries.len() == 0 {
            0
        } else {
            let e = entries.last();
            self.kept_count(entries.drop_last(), p) + if !e.is_dir && self.selects(e.path@)
                && e.path@ == p {
                1nat
            } else {
                0nat
            }
        }
    }

    /// The walks of several folders, one after the other, give the files of
    /// the first folder's walk followed by those of the next.
    pub proof fn lemma_collected_concat(&self, first: Seq<WalkEntry>, next: Seq<WalkEntry>)
        ensures
            self.collected(first + next) == self.collected(first) + self.collected(next),
        decreases next.len(),
    {
        if next.len() == 0 {
            assert(first + next =~= first);
            assert(self.collected(first) + self.collected(next) =~= self.collected(first));
        } else {
            self.lemma_collected_concat(first, next.drop_last());
            assert((first + next).drop_last() =~= first + next.drop_last());
            assert((first + next).last() == next.last());
            let e = next.last();
            if !e.is_dir && self.selects(e.path@) {
                assert(self.collected(first) + self.collected(next.drop_last()).push(e.path@)
                    =~= (self.collected(first) + self.collected(next.drop_last())).push(e.path@));
            }
        }
    }

    /// A path is taken once for every walked entry with that path that the
    /// rules take: a file reached from two folders appears twice.
    pub proof fn lemma_collected_count(&self, entries: Seq<WalkEntry>, p: Seq<char>)
        ensures
            occurrences(self.collected(entries), p) == self.kept_count(entries, p),
        decreases entries.len(),
    {
        if entries.len() > 0 {
            self.lemma_collected_count(entries.drop_last(), p);
            let prev = self.collected(entries.drop_last());
            let e = entries.last();
            if !e.is_dir && self.selects(e.path@) {
                assert(prev.push(e.path@).drop_last() =~= prev);
            }
        }
    }

    /// Builds the rules from the folders to walk and the inclusion and exclusion
    /// patterns; only Markdown files (`.*.md`) are supported. Every pattern
    /// must be one the regex engine accepts (`try_new` checks this).
    pub fn new(paths: Vec<String>, include_pattern: &str, exclude_pattern: &str) -> (rag: Rag)
        requires
            regex_compiles(include_pattern@),
            regex_compiles(exclude_pattern@),
            regex_compiles(supported_source()),
        ensures
            rag.spec_paths() == paths@,
            rag.spec_include() == include_pattern@,
            rag.spec_exclude() == exclude_pattern@,
            rag.spec_supported() == supported_source(),
    {
        let include_pattern = match Pattern::new(include_pattern) {
            Ok(p) => p,
            Err(_) => vstd::pervasive::unreached(),
        };
        let exclude_pattern = match Pattern::new(exclude_pattern) {
            Ok(p) => p,
            Err(_) => vstd::pervasive::unreached(),
        };
        let supported = match Pattern::new(".*.md") {
            Ok(p) => p,
            Err(_) => vstd::pervasive::unreached(),
        };
        Rag { paths, include_pattern, exclude_pattern, supported }
    }

    /// Builds the rules as `new` does when the regex engine accepts every
    /// pattern; otherwise fails, naming the first pattern it refuses
    /// (inclusion, exclusion, then the supported-type pattern).
    pub fn try_new(paths: Vec<String>, include_pattern: &str, exclude_pattern: &str) -> (r: Result<
        Rag,
        PatternError,
    >)
        ensures
            r is Ok <==> regex_compiles(include_pattern@) && regex_compiles(exclude_pattern@)
                && regex_compiles(supported_source()),
            r matches Ok(rag) ==> {
                &&& rag.spec_paths() == paths@
                &&& rag.spec_include() == include_pattern@
                &&& rag.spec_exclude() == exclude_pattern@
                &&& rag.spec_supported() == supported_source()
            },
            r matches Err(e) ==> e.pattern@ == if !regex_compiles(include_pattern@) {
                include_pattern@
            } else if !regex_compiles(exclude_pattern@) {
                exclude_pattern@
            } else {
                supported_source()
            },
    {
        if let Err(e) = Pattern::new(include_pattern) {
            return Err(e);
        }
        if let Err(e) = Pattern::new(exclude_pattern) {
            return Err(e);
        }
        if let Err(e) = Pattern::new(".*.md") {
            return Err(e);
        }
        Ok(Rag::new(paths, include_pattern, exclude_pattern))
    }

    /// The folders that are walked.
    pub fn paths(&self) -> (r: &Vec<String>)
        ensures
            r@ == self.spec_paths(),
    {
        &self.paths
    }

    /// Whether a file named `filename` is taken into the knowledge base.
    pub fn admits(&self, filename: &str) -> (b: bool)
        ensures
            b == self.selects(filename@),
            regex_is_match(self.spec_exclude(), filename@) ==> !b,
            b <==> !regex_is_match(self.spec_exclude(), filename@) && regex_is_match(
                self.spec_include(),
                filename@,
            ) && regex_is_match(self.spec_supported(), filename@),
    {
        if self.exclude_pattern.is_match(filename) {
            return false;
        }
        self.include_pattern.is_match(filename) && self.supported.is_match(filename)
    }

    /// The files to index among the entries of a walk over the folders, in
    /// walking order.
    pub fn collect(&self, entries: &Vec<WalkEntry>) -> (files: Vec<String>)
        ensures
            strings_view(files@) == self.collected(entries@),
            forall|i: int|
                0 <= i < files@.len() ==> {
                    &&& !regex_is_match(self.spec_exclude(), #[trigger] files@[i]@)
                    &&& regex_is_match(self.spec_include(), files@[i]@)
                    &&& regex_is_match(self.spec_supported(), files@[i]@)
                },
    {
        let mut files: Vec<String> = Vec::new();
        let mut i: usize = 0;
        while i < entries.len()
            invariant
                i <= entries@.len(),
                strings_view(files@) == self.collected(entries@.take(i as int)),
            decreases entries.len() - i,
        {
            let entry = &entries[i];
            let ghost before = files@;
            if !entry.is_dir && self.admits(entry.path.as_str()) {
                files.push(entry.path.clone());
                assert(strings_view(files@) =~= strings_view(before).push(entry.path@));
            }
            assert(entries@.take(i + 1).drop_last() =~= entries@.take(i as int));
            i = i + 1;
        }
        assert(entries@.take(entries@.len() as int) =~= entries@);
        proof {
            self.lemma_collected_are_selected(entries@);
            assert forall|i: int| 0 <= i < files@.len() implies {
                &&& !regex_is_match(self.spec_exclude(), #[trigger] files@[i]@)
                &&& regex_is_match(self.spec_include(), files@[i]@)
                &&& regex_is_match(self.spec_supported(), files@[i]@)
            } by {
                assert(strings_view(files@)[i] == files@[i]@);
                assert(self.selects(self.collected(entries@)[i]));
            }
        }
        files
    }

    /// Whether a walked entry is hidden: its file name starts with a dot.
    /// Hidden entries, and everything below a hidden folder, are not walked.
    pub fn is_hidden(&self, file_name: Option<&str>) -> (b: bool)
        ensures
            b == hidden_name(
                match file_name {
                    Some(n) => Some(n@),
                    None => None,
                },
            ),
    {
        match file_name {
            Some(n) => n.unicode_len() > 0 && n.get_char(0) == '.',
            None => false,
        }
    }

    /// The fingerprint of a file's content: SHA-256 of its UTF-8 bytes, in
    /// lowercase hexadecimal.
    pub fn hasher(&self, content: &str) -> (h: String)
        ensures
            h@ == content_hash(content@),
            h@ == hex_lower(sha256_digest(vstd::utf8::encode_utf8(content@))),
            h@.len() == 64,
    {
        content_hash_of(content)
    }

    /// Cuts a file's content into chunks of `CHUNK_SIZE` characters.
    pub fn chunks(&self, content: &str) -> (r: Vec<Vec<char>>)
        ensures
            vec_views(r@) == chunks_of(content@, CHUNK_SIZE as nat),
    {
        chunks(content)
    }

    /// Whether a file whose content hashes to `hash` must be indexed again,
    /// given the hashes of the rows stored for it, or `None` when the store
    /// could not be read.
    pub fn should_we_update(&self, stored: &Option<Vec<String>>, hash: &String) -> (b: bool)
        ensures
            b == needs_update(opt_strings_view(*stored), hash@),
            match *stored {
                Some(v) => b <==> forall|i: int| 0 <= i < v@.len() ==> #[trigger] v@[i]@ != hash@,
                None => b,
            },
    {
        should_update(stored, hash)
    }
}

/// Whether a file whose content hashes to `hash` must be indexed again.
pub fn should_update(stored: &Option<Vec<String>>, hash: &String) -> (b: bool)
    ensures
        b == needs_update(opt_strings_view(*stored), hash@),
        match *stored {
            Some(v) => b <==> forall|i: int| 0 <= i < v@.len() ==> #[trigger] v@[i]@ != hash@,
            None => b,
        },
{
    match stored {
        None => true,
        Some(hashes) => {
            let mut i: usize = 0;
            while i < hashes.len()
                invariant
                    i <= hashes@.len(),
                    opt_strings_view(*stored) == Some(strings_view(hashes@)),
                    forall|j: int| 0 <= j < i ==> hashes@[j]@ != hash@,
                decreases hashes.len() - i,
            {
                if hashes[i] == *hash {
                    assert(strings_view(hashes@)[i as int] == hash@);
                    assert(strings_view(hashes@).contains(hash@));
                    return false;
                }
                i = i + 1;
            }
            assert(!strings_view(hashes@).contains(hash@)) by {
                if strings_view(hashes@).contains(hash@) {
                    let k = choose|k: int| 0 <= k < strings_view(hashes@).len() && strings_view(hashes@)[k] == hash@;
                    assert(hashes@[k]@ == hash@);
                }
            }
            true
        },
    }
}

} // verus!
