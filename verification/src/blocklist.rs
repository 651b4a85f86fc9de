//! The blocklist: executables and publishers whose processes are terminated
//! while they run (a persistent "disable"). Names are kept lowercased; the
//! database that persists the list lives outside this module, which holds
//! the in-memory set, the validation of new entries, the per-process
//! verdict and the cache of publishers looked up by executable path.

use vstd::prelude::*;
use crate::text::{lowercase, same_text, to_lowercase, trim, trim_str};

verus! {

// ---------------------------------------------------------------------------
// Name lists
// ---------------------------------------------------------------------------

/// The names held by a list of strings.
pub open spec fn name_set(v: Seq<String>) -> Set<Seq<char>> {
    Set::new(|x: Seq<char>| exists|i: int| 0 <= i < v.len() && v[i]@ == x)
}

proof fn lemma_name_set_push(v: Seq<String>, e: String)
    ensures
        name_set(v.push(e)) == name_set(v).insert(e@),
{
    let w = v.push(e);
    assert forall|x: Seq<char>| name_set(w).contains(x) <==> name_set(v).insert(e@).contains(x) by {
        if name_set(w).contains(x) {
            let i = choose|i: int| 0 <= i < w.len() && w[i]@ == x;
            if i < v.len() {
                assert(v[i]@ == x);
            }
        }
        if name_set(v).contains(x) {
            let i = choose|i: int| 0 <= i < v.len() && v[i]@ == x;
            assert(w[i]@ == x);
        }
        if x == e@ {
            assert(w[v.len() as int]@ == x);
        }
    }
    assert(name_set(w) =~= name_set(v).insert(e@));
}

proof fn lemma_name_set_empty(v: Seq<String>)
    ensures
        (name_set(v) == Set::<Seq<char>>::empty()) <==> v.len() == 0,
{
    if v.len() == 0 {
        assert(name_set(v) =~= Set::<Seq<char>>::empty());
    } else {
        assert(name_set(v).contains(v[0]@));
    }
}

fn list_contains(v: &Vec<String>, s: &str) -> (b: bool)
    ensures
        b == name_set(v@).contains(s@),
{
    let mut i: usize = 0;
    while i < v.len()
        invariant
            i <= v@.len(),
            forall|k: int| 0 <= k < i ==> v@[k]@ != s@,
        decreases v@.len() - i,
    {
        if same_text(v[i].as_str(), s) {
            assert(v@[i as int]@ == s@);
            return true;
        }
        i = i + 1;
    }
    false
}

fn list_insert(v: &mut Vec<String>, s: String)
    ensures
        name_set(final(v)@) == name_set(old(v)@).insert(s@),
{
    if list_contains(v, s.as_str()) {
        assert(name_set(v@) =~= name_set(v@).insert(s@));
    } else {
        let ghost before = v@;
        v.push(s);
        proof {
            lemma_name_set_push(before, final(v)@.last());
        }
    }
}

fn list_remove(v: &mut Vec<String>, s: &str)
    ensures
        name_set(final(v)@) == name_set(old(v)@).remove(s@),
{
    let mut kept: Vec<String> = Vec::new();
    let mut i: usize = 0;
    assert(name_set(v@.take(0)) =~= Set::<Seq<char>>::empty());
    assert(name_set(kept@) =~= Set::<Seq<char>>::empty());
    while i < v.len()
        invariant
            i <= v@.len(),
            name_set(kept@) == name_set(v@.take(i as int)).remove(s@),
        decreases v@.len() - i,
    {
        let ghost before = kept@;
        proof {
            assert(v@.take(i + 1) =~= v@.take(i as int).push(v@[i as int]));
            lemma_name_set_push(v@.take(i as int), v@[i as int]);
        }
        if !same_text(v[i].as_str(), s) {
            let e = v[i].clone();
            kept.push(e);
            proof {
                lemma_name_set_push(before, e);
                assert(name_set(kept@) =~= name_set(v@.take(i + 1)).remove(s@));
            }
        } else {
            assert(name_set(kept@) =~= name_set(v@.take(i + 1)).remove(s@));
        }
        i = i + 1;
    }
    assert(v@.take(v@.len() as int) =~= v@);
    *v = kept;
}

// ---------------------------------------------------------------------------
// The block set
// ---------------------------------------------------------------------------

/// In-memory blocklist (lowercased) for fast enforcement.
pub struct BlockSet {
    exes: Vec<String>,
    publishers: Vec<String>,
}

/// The contents of a `BlockSet`: the blocked executable names and the
/// blocked publishers, all lowercased.
pub struct BlockView {
    pub exes: Set<Seq<char>>,
    pub publishers: Set<Seq<char>>,
}

pub open spec fn no_blocks() -> BlockView {
    BlockView { exes: Set::empty(), publishers: Set::empty() }
}

impl View for BlockSet {
    type V = BlockView;

    closed spec fn view(&self) -> BlockView {
        BlockView { exes: name_set(self.exes@), publishers: name_set(self.publishers@) }
    }
}

/// The list a kind of entry goes to: "exe" to the executables, any other
/// kind to the publishers.
pub open spec fn targets_exes(kind: Seq<char>) -> bool {
    kind == "exe"@
}

/// The in-memory effect of blocking `value` under `kind`.
pub open spec fn spec_add_block(b: BlockView, kind: Seq<char>, value: Seq<char>) -> BlockView {
    if targets_exes(kind) {
        BlockView { exes: b.exes.insert(lowercase(value)), publishers: b.publishers }
    } else {
        BlockView { exes: b.exes, publishers: b.publishers.insert(lowercase(value)) }
    }
}

/// The in-memory effect of unblocking `value` under `kind`.
pub open spec fn spec_remove_block(b: BlockView, kind: Seq<char>, value: Seq<char>) -> BlockView {
    if targets_exes(kind) {
        BlockView { exes: b.exes.remove(lowercase(value)), publishers: b.publishers }
    } else {
        BlockView { exes: b.exes, publishers: b.publishers.remove(lowercase(value)) }
    }
}

/// The kinds that can be stored.
pub open spec fn valid_kind(kind: Seq<char>) -> bool {
    kind == "exe"@ || kind == "publisher"@
}

/// Loading one stored row: rows of an unknown kind are skipped.
pub open spec fn spec_load_row(b: BlockView, kind: Seq<char>, value: Seq<char>) -> BlockView {
    if valid_kind(kind) {
        spec_add_block(b, kind, value)
    } else {
        b
    }
}

/// The block set built from the stored rows, in order.
pub open spec fn spec_load_blocks(rows: Seq<(Seq<char>, Seq<char>)>) -> BlockView
    decreases rows.len(),
{
    if rows.len() == 0 {
        no_blocks()
    } else {
        spec_load_row(spec_load_blocks(rows.drop_last()), rows.last().0, rows.last().1)
    }
}

/// The character sequences of (kind, value) rows.
pub open spec fn row_views(rows: Seq<(String, String)>) -> Seq<(Seq<char>, Seq<char>)> {
    rows.map_values(|r: (String, String)| (r.0@, r.1@))
}

/// Why a new entry is refused.
#[derive(Clone, Copy, Debug, PartialEq, Eq, Structural)]
pub enum BlockError {
    /// The kind is neither "exe" nor "publisher".
    InvalidKind,
    /// The value is empty once trimmed.
    EmptyValue,
}

pub open spec fn spec_block_error_message(e: BlockError) -> Seq<char> {
    match e {
        BlockError::InvalidKind => "kind must be 'exe' or 'publisher'"@,
        BlockError::EmptyValue => "value is empty"@,
    }
}

impl BlockError {
    /// The message the commands report for this error.
    pub fn message(&self) -> (r: String)
        ensures
            r@ == spec_block_error_message(*self),
    {
        match self {
            BlockError::InvalidKind => "kind must be 'exe' or 'publisher'".to_owned(),
            BlockError::EmptyValue => "value is empty".to_owned(),
        }
    }
}

/// The checks on a new entry: the kind must be known and the trimmed value
/// non-empty; on success, the trimmed value is what is stored.
pub open spec fn spec_validate_block(kind: Seq<char>, value: Seq<char>) -> Result<
    Seq<char>,
    BlockError,
> {
    if !valid_kind(kind) {
        Err(BlockError::InvalidKind)
    } else if trim(value).len() == 0 {
        Err(BlockError::EmptyValue)
    } else {
        Ok(trim(value))
    }
}

pub fn validate_block(kind: &str, value: &str) -> (r: Result<String, BlockError>)
    ensures
        match r {
            Ok(v) => spec_validate_block(kind@, value@) == Ok::<Seq<char>, BlockError>(v@),
            Err(e) => spec_validate_block(kind@, value@) == Err::<Seq<char>, BlockError>(e),
        },
{
    if !same_text(kind, "exe") && !same_text(kind, "publisher") {
        return Err(BlockError::InvalidKind);
    }
    let v = trim_str(value);
    if v.as_str().is_empty() {
        return Err(BlockError::EmptyValue);
    }
    Ok(v)
}

/// The verdict on one running process.
#[derive(Clone, Copy, Debug, PartialEq, Eq, Structural)]
pub enum Verdict {
    /// Terminate it.
    Kill,
    /// Leave it running.
    Spare,
    /// Its publisher is needed and not cached: read it, cache it, then ask
    /// `publisher_verdict`.
    NeedPublisher,
}

/// The characters of an optional string slice.
pub open spec fn text_of(o: Option<&str>) -> Option<Seq<char>> {
    match o {
        Some(e) => Some(e@),
        None => None,
    }
}

/// `company` (a publisher read from an executable) is blocked.
pub open spec fn publisher_matches(b: BlockView, company: Seq<char>) -> bool {
    company.len() > 0 && b.publishers.contains(lowercase(company))
}

/// The verdict on a process called `name`, whose executable path is `exe`,
/// given the publishers cached so far (by executable path).
pub open spec fn spec_enforce_step(
    b: BlockView,
    cache: Map<Seq<char>, Seq<char>>,
    name: Seq<char>,
    exe: Option<Seq<char>>,
) -> Verdict {
    if b.exes.contains(lowercase(name)) {
        Verdict::Kill
    } else if b.publishers == Set::<Seq<char>>::empty() {
        Verdict::Spare
    } else {
        match exe {
            None => Verdict::Spare,
            Some(path) => if cache.dom().contains(path) {
                if publisher_matches(b, cache[path]) {
                    Verdict::Kill
                } else {
                    Verdict::Spare
                }
            } else {
                Verdict::NeedPublisher
            },
        }
    }
}

impl BlockSet {
    /// An empty blocklist.
    pub fn new() -> (r: BlockSet)
        ensures
            r@ == no_blocks(),
    {
        let r = BlockSet { exes: Vec::new(), publishers: Vec::new() };
        assert(r@.exes =~= Set::<Seq<char>>::empty());
        assert(r@.publishers =~= Set::<Seq<char>>::empty());
        r
    }

    /// Nothing is blocked.
    pub fn is_empty(&self) -> (b: bool)
        ensures
            b == (self@ == no_blocks()),
    {
        proof {
            lemma_name_set_empty(self.exes@);
            lemma_name_set_empty(self.publishers@);
        }
        self.exes.len() == 0 && self.publishers.len() == 0
    }

    /// Blocks `value` (lowercased): under "exe" as an executable name, under
    /// any other kind as a publisher.
    pub fn add_block(&mut self, kind: &str, value: &str)
        ensures
            final(self)@ == spec_add_block(old(self)@, kind@, value@),
    {
        let lower = to_lowercase(value);
        if same_text(kind, "exe") {
            list_insert(&mut self.exes, lower);
        } else {
            list_insert(&mut self.publishers, lower);
        }
    }

    /// Unblocks `value` (lowercased): under "exe" from the executable
    /// names, under any other kind from the publishers.
    pub fn remove_block(&mut self, kind: &str, value: &str)
        ensures
            final(self)@ == spec_remove_block(old(self)@, kind@, value@),
    {
        let lower = to_lowercase(value);
        if same_text(kind, "exe") {
            list_remove(&mut self.exes, lower.as_str());
        } else {
            list_remove(&mut self.publishers, lower.as_str());
        }
    }

    /// Builds the blocklist from stored (kind, value) rows; rows of an
    /// unknown kind are skipped.
    pub fn load_blocks(rows: &Vec<(String, String)>) -> (r: BlockSet)
        ensures
            r@ == spec_load_blocks(row_views(rows@)),
    {
        let mut bs = BlockSet::new();
        let mut i: usize = 0;
        assert(row_views(rows@).take(0) =~= Seq::<(Seq<char>, Seq<char>)>::empty());
        while i < rows.len()
            invariant
                i <= rows@.len(),
                bs@ == spec_load_blocks(row_views(rows@).take(i as int)),
            decreases rows@.len() - i,
        {
            let kind = rows[i].0.as_str();
            let value = rows[i].1.as_str();
            proof {
                let t = row_views(rows@).take(i + 1);
                assert(t.drop_last() =~= row_views(rows@).take(i as int));
                assert(t.last() == (kind@, value@));
            }
            if same_text(kind, "exe") || same_text(kind, "publisher") {
                bs.add_block(kind, value);
            }
            i = i + 1;
        }
        assert(row_views(rows@).take(rows@.len() as int) =~= row_views(rows@));
        bs
    }

    /// The executable name `name` is blocked.
    pub fn name_blocked(&self, name: &str) -> (b: bool)
        ensures
            b == self@.exes.contains(lowercase(name@)),
    {
        let lower = to_lowercase(name);
        list_contains(&self.exes, lower.as_str())
    }

    /// The verdict once a process's publisher is known.
    pub fn publisher_verdict(&self, company: &str) -> (v: Verdict)
        ensures
            v == (if publisher_matches(self@, company@) {
                Verdict::Kill
            } else {
                Verdict::Spare
            }),
    {
        if company.is_empty() {
            return Verdict::Spare;
        }
        let lower = to_lowercase(company);
        if list_contains(&self.publishers, lower.as_str()) {
            Verdict::Kill
        } else {
            Verdict::Spare
        }
    }

    /// The verdict on a running process called `name` with executable path
    /// `exe`, using the publishers cached so far.
    pub fn enforce_step(&self, cache: &PublisherCache, name: &str, exe: Option<&str>) -> (v:
        Verdict)
        ensures
            v == spec_enforce_step(self@, cache@, name@, text_of(exe)),
    {
        if self.name_blocked(name) {
            return Verdict::Kill;
        }
        proof {
            lemma_name_set_empty(self.publishers@);
        }
        if self.publishers.len() == 0 {
            return Verdict::Spare;
        }
        match exe {
            None => Verdict::Spare,
            Some(path) => match cache.get(path) {
                Some(company) => self.publisher_verdict(company.as_str()),
                None => Verdict::NeedPublisher,
            },
        }
    }
}

// ---------------------------------------------------------------------------
// Publisher cache
// ---------------------------------------------------------------------------

/// Publishers looked up so far, keyed by executable path; a later entry
/// for a path replaces an earlier one.
pub open spec fn cache_map(s: Seq<(String, String)>) -> Map<Seq<char>, Seq<char>>
    decreases s.len(),
{
    if s.len() == 0 {
        Map::empty()
    } else {
        cache_map(s.drop_last()).insert(s.last().0@, s.last().1@)
    }
}

proof fn lemma_cache_map_suffix_misses(s: Seq<(String, String)>, i: int, k: Seq<char>)
    requires
        0 <= i <= s.len(),
        forall|j: int| i <= j < s.len() ==> (#[trigger] s[j]).0@ != k,
    ensures
        cache_map(s).dom().contains(k) == cache_map(s.take(i)).dom().contains(k),
        cache_map(s).dom().contains(k) ==> cache_map(s)[k] == cache_map(s.take(i))[k],
    decreases s.len() - i,
{
    if i == s.len() {
        assert(s.take(i) =~= s);
    } else {
        assert(s.drop_last().take(i) =~= s.take(i));
        lemma_cache_map_suffix_misses(s.drop_last(), i, k);
    }
}

/// Cache of publishers (company names) by executable path, so that an
/// executable's version information is read once.
pub struct PublisherCache {
    entries: Vec<(String, String)>,
}

impl View for PublisherCache {
    type V = Map<Seq<char>, Seq<char>>;

    closed spec fn view(&self) -> Map<Seq<char>, Seq<char>> {
        cache_map(self.entries@)
    }
}

impl PublisherCache {
    pub fn new() -> (r: PublisherCache)
        ensures
            r@ == Map::<Seq<char>, Seq<char>>::empty(),
    {
        PublisherCache { entries: Vec::new() }
    }

    /// The cached publisher of the executable at `path`.
    pub fn get(&self, path: &str) -> (r: Option<String>)
        ensures
            r is Some <==> self@.dom().contains(path@),
            r matches Some(c) ==> c@ == self@[path@],
    {
        let mut i = self.entries.len();
        while i > 0
            invariant
                i <= self.entries@.len(),
                forall|j: int| i <= j < self.entries@.len() ==> (#[trigger] self.entries@[j]).0@
                    != path@,
            decreases i,
        {
            if same_text(self.entries[i - 1].0.as_str(), path) {
                proof {
                    let s = self.entries@;
                    lemma_cache_map_suffix_misses(s, i as int, path@);
                    assert(s.take(i as int).drop_last() =~= s.take(i - 1));
                }
                return Some(self.entries[i - 1].1.clone());
            }
            i = i - 1;
        }
        proof {
            lemma_cache_map_suffix_misses(self.entries@, 0, path@);
        }
        None
    }

    /// Records the publisher of the executable at `path`.
    pub fn insert(&mut self, path: &str, company: &str)
        ensures
            final(self)@ == old(self)@.insert(path@, company@),
    {
        let ghost before = self.entries@;
        self.entries.push((path.to_owned(), company.to_owned()));
        assert(self.entries@.drop_last() =~= before);
    }
}

// ---------------------------------------------------------------------------
// Laws
// ---------------------------------------------------------------------------

/// Once an entry is accepted, blocking it blocks its value: an "exe" entry
/// kills every process whose lowercased name matches, a "publisher" entry
/// matches every non-empty publisher whose lowercased form matches.
pub proof fn lemma_accepted_entry_blocks(
    b: BlockView,
    cache: Map<Seq<char>, Seq<char>>,
    kind: Seq<char>,
    value: Seq<char>,
    name: Seq<char>,
    exe: Option<Seq<char>>,
    company: Seq<char>,
)
    requires
        spec_validate_block(kind, value) is Ok,
    ensures
        ({
            let t = trim(value);
            let nb = spec_add_block(b, kind, t);
            &&& kind == "exe"@ && lowercase(name) == lowercase(t) ==> spec_enforce_step(
                nb,
                cache,
                name,
                exe,
            ) == Verdict::Kill
            &&& kind == "publisher"@ && company.len() > 0 && lowercase(company) == lowercase(t)
                ==> publisher_matches(nb, company)
        }),
{
    reveal_strlit("exe");
    reveal_strlit("publisher");
    assert("exe"@.len() == 3);
    assert("publisher"@.len() == 9);
    assert("exe"@ != "publisher"@);
}

/// Re-entering a stored value is accepted and stores it unchanged.
pub proof fn lemma_stored_value_is_stable(kind: Seq<char>, value: Seq<char>)
    requires
        spec_validate_block(kind, value) is Ok,
    ensures
        spec_validate_block(kind, trim(value)) == Ok::<Seq<char>, BlockError>(trim(value)),
{
    crate::text::lemma_trim_idempotent(value);
}

/// Unblocking a stored entry (by its stored, trimmed value) right after
/// blocking it restores the blocklist, when it was not blocked before.
pub proof fn lemma_remove_undoes_add(b: BlockView, kind: Seq<char>, value: Seq<char>)
    requires
        spec_validate_block(kind, value) is Ok,
        targets_exes(kind) ==> !b.exes.contains(lowercase(trim(value))),
        !targets_exes(kind) ==> !b.publishers.contains(lowercase(trim(value))),
    ensures
        spec_remove_block(spec_add_block(b, kind, trim(value)), kind, trim(value)) == b,
{
    let t = trim(value);
    let r = spec_remove_block(spec_add_block(b, kind, t), kind, t);
    assert(r.exes =~= b.exes);
    assert(r.publishers =~= b.publishers);
}

/// After unblocking a value, it is no longer blocked under that kind.
pub proof fn lemma_removed_entry_unblocked(b: BlockView, kind: Seq<char>, value: Seq<char>)
    ensures
        targets_exes(kind) ==> !spec_remove_block(b, kind, value).exes.contains(lowercase(value)),
        !targets_exes(kind) ==> !spec_remove_block(b, kind, value).publishers.contains(
            lowercase(value),
        ),
{
}

/// Blocking the same value twice is the same as blocking it once.
pub proof fn lemma_add_idempotent(b: BlockView, kind: Seq<char>, value: Seq<char>)
    ensures
        spec_add_block(spec_add_block(b, kind, value), kind, value) == spec_add_block(
            b,
            kind,
            value,
        ),
{
    let once = spec_add_block(b, kind, value);
    let twice = spec_add_block(once, kind, value);
    assert(twice.exes =~= once.exes);
    assert(twice.publishers =~= once.publishers);
}

/// An empty blocklist spares every process.
pub proof fn lemma_empty_blocklist_spares(
    cache: Map<Seq<char>, Seq<char>>,
    name: Seq<char>,
    exe: Option<Seq<char>>,
)
    ensures
        spec_enforce_step(no_blocks(), cache, name, exe) == Verdict::Spare,
{
}

/// What is persisted is what is enforced: storing an accepted entry's row
/// and reloading the rows gives the same blocklist as adding the entry to
/// the loaded one in memory.
pub proof fn lemma_reload_agrees_with_memory(
    rows: Seq<(Seq<char>, Seq<char>)>,
    kind: Seq<char>,
    value: Seq<char>,
)
    requires
        spec_validate_block(kind, value) is Ok,
    ensures
        spec_load_blocks(rows.push((kind, trim(value)))) == spec_add_block(
            spec_load_blocks(rows),
            kind,
            trim(value),
        ),
{
    assert(rows.push((kind, trim(value))).drop_last() =~= rows);
}

/// The loaded blocklist holds exactly the lowercased values of the rows of
/// each kind.
pub proof fn lemma_load_holds_exactly_rows(rows: Seq<(Seq<char>, Seq<char>)>, x: Seq<char>)
    ensures
        spec_load_blocks(rows).exes.contains(x) <==> exists|i: int|
            0 <= i < rows.len() && rows[i].0 == "exe"@ && lowercase(rows[i].1) == x,
        spec_load_blocks(rows).publishers.contains(x) <==> exists|i: int|
            0 <= i < rows.len() && rows[i].0 == "publisher"@ && lowercase(rows[i].1) == x,
    decreases rows.len(),
{
    reveal_strlit("exe");
    reveal_strlit("publisher");
    assert("exe"@.len() == 3);
    assert("publisher"@.len() == 9);
    assert("exe"@ != "publisher"@);
    if rows.len() > 0 {
        let init = rows.drop_last();
        lemma_load_holds_exactly_rows(init, x);
        let n = rows.len() - 1;
        if exists|i: int| 0 <= i < init.len() && init[i].0 == "exe"@ && lowercase(init[i].1) == x {
            let i = choose|i: int|
                0 <= i < init.len() && init[i].0 == "exe"@ && lowercase(init[i].1) == x;
            assert(rows[i] == init[i]);
        }
        if exists|i: int| 0 <= i < rows.len() && rows[i].0 == "exe"@ && lowercase(rows[i].1) == x {
            let i = choose|i: int|
                0 <= i < rows.len() && rows[i].0 == "exe"@ && lowercase(rows[i].1) == x;
            if i < n {
                assert(init[i] == rows[i]);
            }
        }
        if exists|i: int|
            0 <= i < init.len() && init[i].0 == "publisher"@ && lowercase(init[i].1) == x {
            let i = choose|i: int|
                0 <= i < init.len() && init[i].0 == "publisher"@ && lowercase(init[i].1) == x;
            assert(rows[i] == init[i]);
        }
        if exists|i: int|
            0 <= i < rows.len() && rows[i].0 == "publisher"@ && lowercase(rows[i].1) == x {
            let i = choose|i: int|
                0 <= i < rows.len() && rows[i].0 == "publisher"@ && lowercase(rows[i].1) == x;
            if i < n {
                assert(init[i] == rows[i]);
            }
        }
    }
}

/// The two-step protocol for an uncached executable agrees with deciding at
/// once: after its publisher is read and cached, the step's verdict is the
/// publisher's verdict.
pub proof fn lemma_publisher_lookup_completes(
    b: BlockView,
    cache: Map<Seq<char>, Seq<char>>,
    name: Seq<char>,
    path: Seq<char>,
    company: Seq<char>,
)
    requires
        spec_enforce_step(b, cache, name, Some(path)) == Verdict::NeedPublisher,
    ensures
        spec_enforce_step(b, cache.insert(path, company), name, Some(path)) == (if publisher_matches(
            b,
            company,
        ) {
            Verdict::Kill
        } else {
            Verdict::Spare
        }),
{
}

/// A publisher read back from the cache is the one last recorded for that
/// path, and recording one path leaves the others as they were.
pub proof fn lemma_cache_read_after_write(
    m: Map<Seq<char>, Seq<char>>,
    path: Seq<char>,
    company: Seq<char>,
    other: Seq<char>,
)
    ensures
        m.insert(path, company).dom().contains(path),
        m.insert(path, company)[path] == company,
        other != path ==> (m.insert(path, company).dom().contains(other) == m.dom().contains(other)),
        other != path && m.dom().contains(other) ==> m.insert(path, company)[other] == m[other],
{
}

/// A process whose name is blocked is killed, whatever its path and the
/// cache hold.
pub proof fn lemma_blocked_name_kills(
    b: BlockView,
    cache: Map<Seq<char>, Seq<char>>,
    name: Seq<char>,
    exe: Option<Seq<char>>,
)
    requires
        b.exes.contains(lowercase(name)),
    ensures
        spec_enforce_step(b, cache, name, exe) == Verdict::Kill,
{
}

/// A process whose name is not blocked, but whose executable's cached
/// publisher is non-empty and blocked, is killed, however many executable
/// names are blocked.
pub proof fn lemma_cached_blocked_publisher_kills(
    b: BlockView,
    cache: Map<Seq<char>, Seq<char>>,
    name: Seq<char>,
    path: Seq<char>,
)
    requires
        !b.exes.contains(lowercase(name)),
        cache.dom().contains(path),
        cache[path].len() > 0,
        b.publishers.contains(lowercase(cache[path])),
    ensures
        spec_enforce_step(b, cache, name, Some(path)) == Verdict::Kill,
{
    assert(b.publishers != Set::<Seq<char>>::empty()) by {
        assert(!Set::<Seq<char>>::empty().contains(lowercase(cache[path])));
    }
}

/// A process whose name is not blocked, whose executable's cached publisher
/// is empty or not blocked, is spared.
pub proof fn lemma_cached_unblocked_publisher_spares(
    b: BlockView,
    cache: Map<Seq<char>, Seq<char>>,
    name: Seq<char>,
    path: Seq<char>,
)
    requires
        !b.exes.contains(lowercase(name)),
        cache.dom().contains(path),
        cache[path].len() == 0 || !b.publishers.contains(lowercase(cache[path])),
    ensures
        spec_enforce_step(b, cache, name, Some(path)) == Verdict::Spare,
{
}

/// A process whose name is not blocked, while some publisher is blocked and
/// its executable's publisher is not cached yet, needs that publisher read,
/// however many executable names are blocked.
pub proof fn lemma_uncached_path_needs_publisher(
    b: BlockView,
    cache: Map<Seq<char>, Seq<char>>,
    name: Seq<char>,
    path: Seq<char>,
    blocked_publisher: Seq<char>,
)
    requires
        !b.exes.contains(lowercase(name)),
        b.publishers.contains(blocked_publisher),
        !cache.dom().contains(path),
    ensures
        spec_enforce_step(b, cache, name, Some(path)) == Verdict::NeedPublisher,
{
    assert(b.publishers != Set::<Seq<char>>::empty()) by {
        assert(!Set::<Seq<char>>::empty().contains(blocked_publisher));
    }
}

} // verus!
