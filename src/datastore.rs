//! UUID-indexed files and folders under a managed root: where an identifier
//! lives, and what a directory scan does with each entry it finds.
use vstd::prelude::*;
use vstd::string::*;

use crate::course::{resolved_file, Course, CourseMap};
use crate::ident::{
    canonical_name, canonical_name_spec, lemma_canonical_name_injective, lemma_canonical_name_len,
    parse_identifier, parsed_identifier, upper_name_spec,
};

verus! {

/// The letter `c` in lower case, where it is an upper-case ASCII letter.
pub open spec fn ascii_lower_char(c: char) -> char {
    if 'A' <= c && c <= 'Z' {
        ((c as u32) + 32) as char
    } else {
        c
    }
}

pub open spec fn ascii_lower_spec(s: Seq<char>) -> Seq<char> {
    s.map_values(|c: char| ascii_lower_char(c))
}

proof fn lemma_lower_letter(k: int)
    requires
        0 <= k < 26,
    ensures
        "abcdefghijklmnopqrstuvwxyz"@[k] == ((97 + k) as u32) as char,
{
    reveal_strlit("abcdefghijklmnopqrstuvwxyz");
    let l = "abcdefghijklmnopqrstuvwxyz"@;
    assert(l[k] as u32 == 97 + k);
}

/// `s` with its ASCII letters in lower case and every other character kept.
pub(crate) fn ascii_lower(s: &str) -> (r: String)
    ensures
        r@ == ascii_lower_spec(s@),
{
    let lowers = "abcdefghijklmnopqrstuvwxyz";
    proof {
        reveal_strlit("abcdefghijklmnopqrstuvwxyz");
    }
    let n = s.unicode_len();
    let mut r = String::new();
    let mut i: usize = 0;
    while i < n
        invariant
            n == s@.len(),
            i <= n,
            lowers@ == "abcdefghijklmnopqrstuvwxyz"@,
            lowers@.len() == 26,
            r@ == ascii_lower_spec(s@.take(i as int)),
        decreases n - i,
    {
        let c = s.get_char(i);
        let piece = if 'A' <= c && c <= 'Z' {
            let k = (c as u32 - 65) as usize;
            let p = lowers.substring_char(k, k + 1);
            proof {
                lemma_lower_letter(k as int);
            }
            assert(lowers@[k as int] == ascii_lower_char(c));
            assert(p@ =~= seq![ascii_lower_char(c)]);
            p
        } else {
            let p = s.substring_char(i, i + 1);
            assert(p@ =~= seq![ascii_lower_char(c)]);
            p
        };
        r.append(piece);
        assert(ascii_lower_spec(s@.take(i as int + 1)) =~= ascii_lower_spec(s@.take(i as int)).push(ascii_lower_char(c)));
        assert(r@ =~= ascii_lower_spec(s@.take(i as int + 1)));
        i = i + 1;
    }
    assert(s@.take(n as int) =~= s@);
    r
}

/// Kinds of I/O failure that callers tell apart.
#[derive(Clone, Copy, Debug, PartialEq, Eq, Structural)]
pub enum IoKind {
    NotFound,
    AlreadyExists,
    Other,
}

/// The failures of the datastore.
#[derive(Debug)]
pub enum Error {
    /// Another handle holds the file's lock.
    AlreadyLocked,
    Io(IoKind, String),
    Deserialization(String),
    Serialization(String),
    GraphParse(String),
    /// Work handed to a blocking task was aborted or panicked.
    BlockingTaskFailed(String),
    Decompression(String),
}

impl Error {
    /// Whether this is an I/O failure on a missing file.
    pub fn is_not_found(&self) -> (r: bool)
        ensures
            r == (self matches Error::Io(k, _) && k == IoKind::NotFound),
    {
        match self {
            Error::Io(k, _) => match k {
                IoKind::NotFound => true,
                _ => false,
            },
            _ => false,
        }
    }
}

/// What a directory entry is on disk.
#[derive(Clone, Copy, Debug, PartialEq, Eq, Structural)]
pub enum EntryKind {
    File,
    Directory,
    /// Gone, or of no kind that can be read.
    Missing,
}

/// An indexed entry: its identifier, and the name to rename it to where its
/// name is not canonical.
#[derive(Debug)]
pub struct ScanOutcome {
    pub id: u128,
    pub rename_to: Option<String>,
}

pub open spec fn opt_view(o: Option<String>) -> Option<Seq<char>> {
    match o {
        Some(s) => Some(s@),
        None => None,
    }
}

/// The identifier of an entry named `name`: the one it spells, else `fresh`.
pub open spec fn entry_identifier(name: Seq<char>, fresh: u128) -> u128 {
    match parsed_identifier(name) {
        Some(v) => v,
        None => fresh,
    }
}

/// `name` is the simple form of `id`, in lower or upper case.
pub open spec fn spells(name: Seq<char>, id: u128) -> bool {
    name == canonical_name_spec(id) || name == upper_name_spec(id)
}

/// The file name of identifier `id` with the extension `ext`, if any.
pub open spec fn file_name_spec(id: u128, ext: Option<Seq<char>>) -> Seq<char> {
    match ext {
        Some(e) => canonical_name_spec(id) + seq!['.'] + e,
        None => canonical_name_spec(id),
    }
}

/// `name` below the directory `root`.
pub open spec fn child_spec(root: Seq<char>, name: Seq<char>) -> Seq<char> {
    root + seq!['/'] + name
}

fn child(root: &str, name: &str) -> (r: String)
    ensures
        r@ == child_spec(root@, name@),
{
    let mut r = String::from_str(root);
    r.append("/");
    r.append(name);
    proof {
        reveal_strlit("/");
    }
    r
}

fn file_name(id: u128, ext: &Option<String>) -> (r: String)
    ensures
        r@ == file_name_spec(id, opt_view(*ext)),
{
    let mut r = canonical_name(id);
    if let Some(e) = ext {
        r.append(".");
        r.append(e.as_str());
        proof {
            reveal_strlit(".");
        }
    }
    r
}

fn same_text(a: &Option<String>, b: &Option<String>) -> (r: bool)
    ensures
        r == (opt_view(*a) == opt_view(*b)),
{
    match (a, b) {
        (Some(x), Some(y)) => *x == *y,
        (None, None) => true,
        _ => false,
    }
}

fn lower_opt(o: &Option<String>) -> (r: Option<String>)
    ensures
        opt_view(r) == match opt_view(*o) {
            Some(s) => Some(ascii_lower_spec(s)),
            None => None,
        },
{
    match o {
        Some(s) => Some(ascii_lower(s.as_str())),
        None => None,
    }
}

/// The entry named `name`, indexed: its identifier is the one its name spells,
/// else `fresh`; it is renamed to `canonical`'s name unless it already bears it.
fn index_entry(name: &str, ext: &Option<String>, canonical_ext: &Option<String>, fresh: u128) -> (r: ScanOutcome)
    ensures
        r.id == entry_identifier(name@, fresh),
        opt_view(r.rename_to) == if name@ == canonical_name_spec(r.id) && opt_view(*ext) == opt_view(*canonical_ext) {
            None
        } else {
            Some(file_name_spec(r.id, opt_view(*canonical_ext)))
        },
        forall|v: u128| #[trigger] spells(name@, v) ==> r.id == v,
{
    let id = match parse_identifier(name) {
        Some(v) => v,
        None => fresh,
    };
    let formatted = canonical_name(id);
    let keeps = formatted == String::from_str(name) && same_text(ext, canonical_ext);
    let rename_to = if keeps {
        None
    } else {
        Some(file_name(id, canonical_ext))
    };
    ScanOutcome { id, rename_to }
}

/// A UUID-indexed file manager: the files of one extension under a root.
#[derive(Debug)]
pub struct DataManager {
    pub root: String,
    /// In lower case.
    pub extension: Option<String>,
}

/// The path of identifier `id`'s file.
pub open spec fn data_path_spec(root: Seq<char>, id: u128, ext: Option<Seq<char>>) -> Seq<char> {
    child_spec(root, file_name_spec(id, ext))
}

impl DataManager {
    /// A manager of the files under `root` with the extension `extension`,
    /// taken in lower case.
    pub fn new(root: String, extension: Option<String>) -> (r: Self)
        ensures
            r.root == root,
            opt_view(r.extension) == match opt_view(extension) {
                Some(s) => Some(ascii_lower_spec(s)),
                None => None,
            },
    {
        let extension = lower_opt(&extension);
        DataManager { root, extension }
    }

    /// The path of identifier `id`'s file; whether it exists is not looked at.
    pub fn get(&self, id: u128) -> (r: String)
        ensures
            r@ == data_path_spec(self.root@, id, opt_view(self.extension)),
    {
        let name = file_name(id, &self.extension);
        child(self.root.as_str(), name.as_str())
    }

    /// What a scan does with the entry of kind `kind` whose name is `stem`
    /// followed by the extension `extension`. Entries that are not files with
    /// the manager's extension (in any case) are skipped. Others are indexed:
    /// by the identifier that the stem spells, else by `fresh`, and renamed to
    /// their canonical name where they do not bear it.
    pub fn handle_scanned_path(&self, kind: EntryKind, stem: &str, extension: &Option<String>, fresh: u128) -> (r: Option<ScanOutcome>)
        ensures
            (kind == EntryKind::File && match opt_view(*extension) {
                Some(e) => opt_view(self.extension) == Some(ascii_lower_spec(e)),
                None => opt_view(self.extension).is_none(),
            }) == r.is_some(),
            r matches Some(o) ==> {
                &&& o.id == entry_identifier(stem@, fresh)
                &&& opt_view(o.rename_to) == if stem@ == canonical_name_spec(o.id) && opt_view(*extension) == opt_view(self.extension) {
                    None
                } else {
                    Some(file_name_spec(o.id, opt_view(self.extension)))
                }
            },
            r matches Some(o) ==> forall|v: u128| #[trigger] spells(stem@, v) ==> o.id == v,
    {
        let lowered = lower_opt(extension);
        let is_file = match kind {
            EntryKind::File => true,
            _ => false,
        };
        if !is_file || !same_text(&lowered, &self.extension) {
            return None;
        }
        Some(index_entry(stem, extension, &self.extension, fresh))
    }
}

/// What a folder manager's scan does with one entry.
#[derive(Debug)]
pub enum EntryPlan {
    /// Not an entry of this manager.
    Ignore,
    /// A remnant of an aborted extraction, to be deleted.
    RemoveLeftover { directory: bool },
    /// An archive, to be extracted to `temp_name` and then moved to `dest_name`.
    Extract { temp_name: String, dest_name: String },
    /// A folder, indexed.
    Index(ScanOutcome),
}

/// One step of archive ingestion on disk, by names under the managed root.
#[derive(Debug)]
pub enum FsStep {
    RemoveDirAll(String),
    RemoveFile(String),
    Rename { from: String, to: String },
}

/// A UUID-indexed folder manager, which also ingests zip archives.
#[derive(Debug)]
pub struct ResourceManager {
    pub root: String,
}

pub open spec fn is_ext(ext: Option<Seq<char>>, word: Seq<char>) -> bool {
    match ext {
        Some(e) => ascii_lower_spec(e) == word,
        None => false,
    }
}

/// The steps that finish the ingestion of `archive` once its extraction to
/// `temp` ended. After success the extracted folder moves to `dest` and the
/// archive is deleted; after a failure only the partial extraction is
/// deleted, and the archive stays.
pub open spec fn ingestion_steps(succeeded: bool, archive: Seq<char>, temp: Seq<char>, dest: Seq<char>) -> Seq<(nat, Seq<char>, Seq<char>)> {
    if succeeded {
        seq![(2nat, temp, dest), (1nat, archive, Seq::empty())]
    } else {
        seq![(0nat, temp, Seq::empty())]
    }
}

impl FsStep {
    /// The step as a triple: its kind (0 removes a folder, 1 a file, 2 renames)
    /// and its paths.
    pub open spec fn model(&self) -> (nat, Seq<char>, Seq<char>) {
        match self {
            FsStep::RemoveDirAll(p) => (0nat, p@, Seq::empty()),
            FsStep::RemoveFile(p) => (1nat, p@, Seq::empty()),
            FsStep::Rename { from, to } => (2nat, from@, to@),
        }
    }
}

impl ResourceManager {
    pub fn new(root: String) -> (r: Self)
        ensures
            r.root == root,
    {
        ResourceManager { root }
    }

    /// The path of identifier `id`'s folder; whether it exists is not looked at.
    pub fn get(&self, id: u128) -> (r: String)
        ensures
            r@ == child_spec(self.root@, canonical_name_spec(id)),
    {
        let name = canonical_name(id);
        child(self.root.as_str(), name.as_str())
    }

    /// What a scan does with the entry of kind `kind` named `name`, whose stem
    /// is `stem` and extension `extension`. Leftovers of an extraction (the
    /// extension `temp`) are deleted; a `zip` file is extracted beside itself
    /// under its stem; a folder is indexed by the identifier that its name
    /// spells, else by `fresh`, and renamed to its canonical name where it does
    /// not bear it; anything else is skipped.
    pub fn handle_scanned_path(
        &self,
        kind: EntryKind,
        name: &str,
        stem: &str,
        extension: &Option<String>,
        fresh: u128,
    ) -> (r: EntryPlan)
        ensures
            kind == EntryKind::Missing ==> r is Ignore,
            kind != EntryKind::Missing && is_ext(opt_view(*extension), "temp"@) ==> r == (EntryPlan::RemoveLeftover { directory: kind == EntryKind::Directory }),
            kind == EntryKind::File && !is_ext(opt_view(*extension), "temp"@) && !is_ext(opt_view(*extension), "zip"@) ==> r is Ignore,
            kind == EntryKind::File && is_ext(opt_view(*extension), "zip"@) ==> (r matches EntryPlan::Extract { temp_name, dest_name } && temp_name@ == stem@ + ".temp"@ && dest_name@ == stem@),
            kind == EntryKind::Directory && !is_ext(opt_view(*extension), "temp"@) ==> (r matches EntryPlan::Index(o) && o.id == entry_identifier(name@, fresh)
                && opt_view(o.rename_to) == if name@ == canonical_name_spec(o.id) { None } else { Some(canonical_name_spec(o.id)) }),
            r matches EntryPlan::Index(o) ==> forall|v: u128| #[trigger] spells(name@, v) ==> o.id == v,
    {
        proof {
            reveal_strlit("temp");
            reveal_strlit("zip");
            reveal_strlit(".temp");
            assert("zip"@.len() == 3 && "temp"@.len() == 4);
        }
        let lowered = lower_opt(extension);
        let temp = Some(String::from_str("temp"));
        let zip = Some(String::from_str("zip"));
        match kind {
            EntryKind::Missing => EntryPlan::Ignore,
            _ => {
                if same_text(&lowered, &temp) {
                    return EntryPlan::RemoveLeftover { directory: kind == EntryKind::Directory };
                }
                match kind {
                    EntryKind::Directory => {
                        let none: Option<String> = None;
                        EntryPlan::Index(index_entry(name, &none, &none, fresh))
                    },
                    _ => {
                        if !same_text(&lowered, &zip) {
                            return EntryPlan::Ignore;
                        }
                        let mut temp_name = String::from_str(stem);
                        temp_name.append(".temp");
                        assert(temp_name@ == stem@ + ".temp"@);
                        assert(is_ext(opt_view(*extension), "zip"@) ==> !is_ext(opt_view(*extension), "temp"@));
                        EntryPlan::Extract { temp_name, dest_name: String::from_str(stem) }
                    },
                }
            },
        }
    }

    /// The steps that finish ingesting `archive` after its extraction to `temp`
    /// succeeded or failed.
    pub fn finish_extraction(succeeded: bool, archive: &str, temp: &str, dest: &str) -> (r: Vec<FsStep>)
        ensures
            r@.map_values(|s: FsStep| s.model()) == ingestion_steps(succeeded, archive@, temp@, dest@),
    {
        let mut r: Vec<FsStep> = Vec::new();
        if succeeded {
            r.push(FsStep::Rename { from: String::from_str(temp), to: String::from_str(dest) });
            r.push(FsStep::RemoveFile(String::from_str(archive)));
        } else {
            r.push(FsStep::RemoveDirAll(String::from_str(temp)));
        }
        assert(r@.map_values(|s: FsStep| s.model()) =~= ingestion_steps(succeeded, archive@, temp@, dest@));
        r
    }
}

/// A failed extraction touches neither the archive nor the final folder: its
/// one step deletes the partial extraction.
pub proof fn lemma_failed_extraction_keeps_archive(archive: Seq<char>, temp: Seq<char>, dest: Seq<char>)
    ensures
        ingestion_steps(false, archive, temp, dest).len() == 1,
        ingestion_steps(false, archive, temp, dest)[0] == (0nat, temp, Seq::<char>::empty()),
        forall|i: int| 0 <= i < ingestion_steps(false, archive, temp, dest).len() ==>
            (#[trigger] ingestion_steps(false, archive, temp, dest)[i]).0 != 2,
{
}

/// `s` holds some identifier twice.
pub open spec fn has_repeat(s: Seq<u128>) -> bool {
    exists|i: int, j: int| 0 <= i < j < s.len() && s[i] == s[j]
}

/// The error of a scan that met one identifier twice.
pub open spec fn is_collision(e: Error) -> bool {
    e matches Error::Io(k, _) && k == IoKind::AlreadyExists
}

/// Adds identifier `id` to those found so far in a scan, and fails where it
/// was found before.
pub fn record_identifier(found: &mut Vec<u128>, id: u128) -> (r: Result<(), Error>)
    ensures
        old(found)@.contains(id) ==> (r matches Err(e) && is_collision(e)) && final(found)@ == old(found)@,
        !old(found)@.contains(id) ==> r is Ok && final(found)@ == old(found)@.push(id),
{
    let mut j: usize = 0;
    while j < found.len()
        invariant
            j <= found@.len(),
            forall|k: int| 0 <= k < j ==> found@[k] != id,
        decreases found@.len() - j,
    {
        if found[j] == id {
            return Err(Error::Io(IoKind::AlreadyExists, String::from_str("entry already exists")));
        }
        j = j + 1;
    }
    found.push(id);
    Ok(())
}

/// The identifiers of a scan's entries, in order: a collision where two
/// entries have one identifier.
pub fn collect_identifiers(ids: &Vec<u128>) -> (r: Result<Vec<u128>, Error>)
    ensures
        r is Ok <==> !has_repeat(ids@),
        r matches Ok(v) ==> v@ == ids@,
        r matches Err(e) ==> is_collision(e),
{
    let mut found: Vec<u128> = Vec::new();
    let mut i: usize = 0;
    while i < ids.len()
        invariant
            i <= ids@.len(),
            found@ == ids@.take(i as int),
            !has_repeat(ids@.take(i as int)),
        decreases ids@.len() - i,
    {
        let ghost before = found@;
        match record_identifier(&mut found, ids[i]) {
            Ok(()) => {},
            Err(e) => {
                proof {
                    let k = choose|k: int| 0 <= k < before.len() && before[k] == ids@[i as int];
                    assert(ids@[k] == ids@[i as int]);
                }
                return Err(e);
            },
        }
        proof {
            assert(found@ =~= ids@.take(i as int + 1));
            let t = ids@.take(i as int + 1);
            if has_repeat(t) {
                let (a, b) = choose|a: int, b: int| 0 <= a < b < t.len() && t[a] == t[b];
                if b == i {
                    assert(before[a] == ids@[i as int]);
                    assert(before.contains(ids@[i as int]));
                } else {
                    assert(ids@.take(i as int)[a] == ids@.take(i as int)[b]);
                }
            }
        }
        i = i + 1;
    }
    assert(ids@.take(i as int) =~= ids@);
    Ok(found)
}

/// Two identifiers with one file path under one root are the same identifier.
pub proof fn lemma_data_path_injective(root: Seq<char>, a: u128, b: u128, ext: Option<Seq<char>>)
    requires
        data_path_spec(root, a, ext) == data_path_spec(root, b, ext),
    ensures
        a == b,
{
    lemma_canonical_name_len(a);
    lemma_canonical_name_len(b);
    let lo = root.len() as int + 1;
    assert(data_path_spec(root, a, ext).subrange(lo, lo + 32) =~= canonical_name_spec(a));
    assert(data_path_spec(root, b, ext).subrange(lo, lo + 32) =~= canonical_name_spec(b));
    if a != b {
        lemma_canonical_name_injective(a, b);
    }
}

/// Two identifiers with one folder path under one root are the same identifier.
pub proof fn lemma_folder_path_injective(root: Seq<char>, a: u128, b: u128)
    requires
        child_spec(root, canonical_name_spec(a)) == child_spec(root, canonical_name_spec(b)),
    ensures
        a == b,
{
    lemma_canonical_name_len(a);
    lemma_canonical_name_len(b);
    let lo = root.len() as int + 1;
    assert(child_spec(root, canonical_name_spec(a)).subrange(lo, lo + 32) =~= canonical_name_spec(a));
    assert(child_spec(root, canonical_name_spec(b)).subrange(lo, lo + 32) =~= canonical_name_spec(b));
    if a != b {
        lemma_canonical_name_injective(a, b);
    }
}

/// The identifiers of a scan without collisions have pairwise distinct file
/// paths: no two entries are merged into one.
pub proof fn lemma_scanned_paths_distinct(root: Seq<char>, ids: Seq<u128>, ext: Option<Seq<char>>)
    requires
        !has_repeat(ids),
    ensures
        forall|i: int, j: int| 0 <= i < ids.len() && 0 <= j < ids.len() && i != j ==>
            #[trigger] data_path_spec(root, ids[i], ext) != #[trigger] data_path_spec(root, ids[j], ext),
{
    assert forall|i: int, j: int| 0 <= i < ids.len() && 0 <= j < ids.len() && i != j implies
        #[trigger] data_path_spec(root, ids[i], ext) != #[trigger] data_path_spec(root, ids[j], ext) by {
        assert(ids[i] != ids[j]);
        if data_path_spec(root, ids[i], ext) == data_path_spec(root, ids[j], ext) {
            lemma_data_path_injective(root, ids[i], ids[j], ext);
        }
    }
}

/// How many entries are handled at once.
pub const MAX_FS_CONCURRENCY: usize = 8;

/// The batches `[start, end)` that cover `len` items in order, each of at most
/// `limit` items.
pub fn batches(len: usize, limit: usize) -> (r: Vec<(usize, usize)>)
    requires
        limit > 0,
    ensures
        r@.len() * limit >= len,
        r@.len() > 0 ==> (r@.len() - 1) * limit < len,
        forall|k: int| 0 <= k < r@.len() ==> {
            &&& (#[trigger] r@[k]).0 == k * limit
            &&& r@[k].1 == if (k + 1) * limit < len { (k + 1) * limit } else { len as int }
        },
{
    let mut r: Vec<(usize, usize)> = Vec::new();
    let mut start: usize = 0;
    while start < len
        invariant
            limit > 0,
            start <= len,
            r@.len() == 0 ==> start == 0,
            r@.len() > 0 ==> start == r@.last().1,
            r@.len() > 0 ==> (r@.len() - 1) * limit < len,
            start < len ==> start == r@.len() * limit,
            forall|k: int| 0 <= k < r@.len() ==> {
                &&& (#[trigger] r@[k]).0 == k * limit
                &&& r@[k].1 == if (k + 1) * limit < len { (k + 1) * limit } else { len as int }
            },
        decreases len - start,
    {
        let end: usize = if len - start > limit { start + limit } else { len };
        let ghost n = r@.len();
        assert((n + 1) * limit == n * limit + limit) by (nonlinear_arith);
        r.push((start, end));
        start = end;
    }
    proof {
        let n = r@.len();
        if n > 0 {
            assert(r@[n - 1].1 == start);
            assert(n * limit == (n - 1) * limit + limit) by (nonlinear_arith);
        }
    }
    r
}

/// The store of course bundles (folders) and course maps (files) under one
/// root.
#[derive(Debug)]
pub struct DataStore {
    pub root: String,
}

impl DataStore {
    /// The folder of course `id`.
    pub fn course_root(&self, id: u128) -> (r: String)
        ensures
            r@ == child_spec(self.root@, canonical_name_spec(id)),
    {
        let name = canonical_name(id);
        child(self.root.as_str(), name.as_str())
    }

    /// The index document of course `id`.
    pub fn course_index_path(&self, id: u128) -> (r: String)
        ensures
            r@ == child_spec(child_spec(self.root@, canonical_name_spec(id)), "course.toml"@),
    {
        let dir = self.course_root(id);
        child(dir.as_str(), "course.toml")
    }

    /// The document of course map `id`.
    pub fn course_map_path(&self, id: u128) -> (r: String)
        ensures
            r@ == data_path_spec(self.root@, id, Some("toml"@)),
    {
        let ext = Some(String::from_str("toml"));
        let name = file_name(id, &ext);
        child(self.root.as_str(), name.as_str())
    }

    /// Stamps a course read from the index of bundle `id` with that identifier,
    /// and resolves its textbooks' files inside the bundle.
    pub fn stamp_course(&self, course: &mut Course, id: u128)
        ensures
            final(course).uuid == id,
            final(course).title == old(course).title,
            final(course).description == old(course).description,
            final(course).books@.len() == old(course).books@.len(),
            forall|i: int| 0 <= i < old(course).books@.len() ==> {
                &&& (#[trigger] final(course).books@[i]).file@
                    == resolved_file(child_spec(self.root@, canonical_name_spec(id)), old(course).books@[i].file@)
                &&& final(course).books@[i].label == old(course).books@[i].label
                &&& final(course).books@[i].chapters == old(course).books@[i].chapters
            },
    {
        let root = self.course_root(id);
        course.update_root(root.as_str(), id);
    }

    /// Stamps a course map read from document `id` with that identifier.
    pub fn stamp_course_map(map: &mut CourseMap, id: u128)
        ensures
            final(map).uuid == id,
            final(map).title == old(map).title,
            final(map).description == old(map).description,
            final(map).optimize == old(map).optimize,
            final(map).courses == old(map).courses,
    {
        map.uuid = id;
    }
}

/// The places of the managed data under one data directory.
#[derive(Debug)]
pub struct DataLayout {
    pub course_maps: String,
    pub courses: String,
    pub progress: String,
    pub active_courses: String,
    pub overall_progress: String,
    pub offsets: String,
    pub settings: String,
}

impl DataLayout {
    /// The layout under `data_dir`: the folders of course maps, courses and
    /// progress records, and the fixed-name documents.
    pub fn new(data_dir: &str) -> (r: Self)
        ensures
            r.course_maps@ == child_spec(data_dir@, "Course Maps"@),
            r.courses@ == child_spec(data_dir@, "Courses"@),
            r.progress@ == child_spec(data_dir@, "Progress Data"@),
            r.active_courses@ == child_spec(data_dir@, "Active Courses.toml"@),
            r.overall_progress@ == child_spec(child_spec(data_dir@, "Progress Data"@), "total.toml"@),
            r.offsets@ == child_spec(child_spec(data_dir@, "Progress Data"@), "offsets.toml"@),
            r.settings@ == child_spec(data_dir@, "Settings.toml"@),
    {
        let progress = child(data_dir, "Progress Data");
        DataLayout {
            course_maps: child(data_dir, "Course Maps"),
            courses: child(data_dir, "Courses"),
            active_courses: child(data_dir, "Active Courses.toml"),
            overall_progress: child(progress.as_str(), "total.toml"),
            offsets: child(progress.as_str(), "offsets.toml"),
            settings: child(data_dir, "Settings.toml"),
            progress,
        }
    }
}

/// A scan's planned work once every entry was looked at: the identifiers
/// found, in order, and the renames to carry out, by entry index.
#[derive(Debug)]
pub struct ScanPlan {
    pub ids: Vec<u128>,
    pub renames: Vec<(usize, String)>,
}

/// The identifiers of the indexed entries among `s`, in order.
pub open spec fn ids_of(s: Seq<Option<ScanOutcome>>) -> Seq<u128>
    decreases s.len(),
{
    if s.len() == 0 {
        Seq::empty()
    } else {
        match s.last() {
            Some(o) => ids_of(s.drop_last()).push(o.id),
            None => ids_of(s.drop_last()),
        }
    }
}

/// The renames that the entries among `s` ask for, with their indices.
pub open spec fn renames_of(s: Seq<Option<ScanOutcome>>) -> Seq<(usize, Seq<char>)>
    decreases s.len(),
{
    if s.len() == 0 {
        Seq::empty()
    } else {
        match s.last() {
            Some(o) => match o.rename_to {
                Some(n) => renames_of(s.drop_last()).push(((s.len() - 1) as usize, n@)),
                None => renames_of(s.drop_last()),
            },
            None => renames_of(s.drop_last()),
        }
    }
}

impl ScanPlan {
    pub open spec fn renames_model(&self) -> Seq<(usize, Seq<char>)> {
        self.renames@.map_values(|x: (usize, String)| (x.0, x.1@))
    }
}

/// Settles a scan from the outcomes of all its entries (`None` for a skipped
/// entry), before anything is renamed: a collision where two entries have one
/// identifier, else the identifiers and the renames to carry out.
pub fn settle_scan(outcomes: &Vec<Option<ScanOutcome>>) -> (r: Result<ScanPlan, Error>)
    ensures
        r is Ok <==> !has_repeat(ids_of(outcomes@)),
        r matches Err(e) ==> is_collision(e),
        r matches Ok(p) ==> p.ids@ == ids_of(outcomes@) && p.renames_model() == renames_of(outcomes@),
{
    let mut ids: Vec<u128> = Vec::new();
    let mut renames: Vec<(usize, String)> = Vec::new();
    let mut i: usize = 0;
    while i < outcomes.len()
        invariant
            i <= outcomes@.len(),
            ids@ == ids_of(outcomes@.take(i as int)),
            renames@.map_values(|x: (usize, String)| (x.0, x.1@)) == renames_of(outcomes@.take(i as int)),
        decreases outcomes@.len() - i,
    {
        assert(outcomes@.take(i as int + 1).drop_last() =~= outcomes@.take(i as int));
        let ghost before = renames@;
        if let Some(o) = &outcomes[i] {
            ids.push(o.id);
            if let Some(n) = &o.rename_to {
                renames.push((i, n.clone()));
                assert(renames@.map_values(|x: (usize, String)| (x.0, x.1@))
                    =~= before.map_values(|x: (usize, String)| (x.0, x.1@)).push((i, n@)));
            }
        }
        i = i + 1;
    }
    assert(outcomes@.take(i as int) =~= outcomes@);
    let ids = collect_identifiers(&ids)?;
    Ok(ScanPlan { ids, renames })
}

} // verus!
