use vstd::prelude::*;

use crate::text::chars_of;
use crate::text::push_char;

verus! {

/// Whether `c` may stand in a name: an ASCII letter or digit, `_`, `-` or `.`.
pub open spec fn is_name_char(c: char) -> bool {
    ('a' <= c && c <= 'z') || ('A' <= c && c <= 'Z') || ('0' <= c && c <= '9') || c == '_' || c
        == '-' || c == '.'
}

/// A name: one or more name characters.
pub open spec fn is_name(s: Seq<char>) -> bool {
    s.len() > 0 && forall|i: int| 0 <= i < s.len() ==> is_name_char(#[trigger] s[i])
}

/// A DOI: `10.` followed by one or more characters other than a line feed.
pub open spec fn is_doi(s: Seq<char>) -> bool {
    &&& s.len() >= 4
    &&& s[0] == '1'
    &&& s[1] == '0'
    &&& s[2] == '.'
    &&& forall|i: int| 3 <= i < s.len() ==> #[trigger] s[i] != '\n'
}

/// A lowercase hexadecimal digit.
pub open spec fn is_hex_digit(c: char) -> bool {
    ('0' <= c && c <= '9') || ('a' <= c && c <= 'f')
}

/// The text form of a digest: 56 lowercase hexadecimal digits.
pub open spec fn is_hash_text(s: Seq<char>) -> bool {
    s.len() == 56 && forall|i: int| 0 <= i < s.len() ==> is_hex_digit(#[trigger] s[i])
}

fn name_char(c: char) -> (r: bool)
    ensures
        r == is_name_char(c),
{
    ('a' <= c && c <= 'z') || ('A' <= c && c <= 'Z') || ('0' <= c && c <= '9') || c == '_' || c
        == '-' || c == '.'
}

/// Whether `s` is a name.
pub fn is_valid_name(s: &str) -> (r: bool)
    ensures
        r == is_name(s@),
{
    let c = chars_of(s);
    if c.len() == 0 {
        return false;
    }
    let mut i: usize = 0;
    while i < c.len()
        invariant
            c@ == s@,
            i <= c@.len(),
            forall|j: int| 0 <= j < i ==> is_name_char(#[trigger] c@[j]),
        decreases c@.len() - i,
    {
        if !name_char(c[i]) {
            return false;
        }
        i = i + 1;
    }
    true
}

/// Whether `s` is a DOI.
pub fn is_valid_doi(s: &str) -> (r: bool)
    ensures
        r == is_doi(s@),
{
    let c = chars_of(s);
    if c.len() < 4 || c[0] != '1' || c[1] != '0' || c[2] != '.' {
        return false;
    }
    let mut i: usize = 3;
    while i < c.len()
        invariant
            c@ == s@,
            3 <= i <= c@.len(),
            forall|j: int| 3 <= j < i ==> #[trigger] c@[j] != '\n',
        decreases c@.len() - i,
    {
        if c[i] == '\n' {
            return false;
        }
        i = i + 1;
    }
    true
}

/// The name of a file or a directory.
#[derive(Debug, Clone, PartialEq, Eq, Hash)]
pub struct Name(pub String);

impl Name {
    /// Reads a name; `None` when `s` does not follow the name grammar.
    pub fn deserialize(s: String) -> (r: Option<Name>)
        ensures
            r is Some <==> is_name(s@),
            r is Some ==> r.unwrap().0@ == s@,
    {
        if is_valid_name(s.as_str()) {
            Some(Name(s))
        } else {
            None
        }
    }
}

/// A DOI, the identifier of a publication.
#[derive(Debug, Clone, PartialEq, Eq, Hash)]
pub struct Doi(pub String);

impl Doi {
    /// Reads a DOI; `None` when `s` does not follow the DOI grammar.
    pub fn deserialize(s: String) -> (r: Option<Doi>)
        ensures
            r is Some <==> is_doi(s@),
            r is Some ==> r.unwrap().0@ == s@,
    {
        if is_valid_doi(s.as_str()) {
            Some(Doi(s))
        } else {
            None
        }
    }
}

/// The logical location of a file or a directory: names joined by `/`, the
/// first of them the dataset's name.
#[derive(Debug, Clone, PartialEq, Eq, Hash)]
pub struct PathId(pub String);

impl PathId {
    /// The location of the child `name` of this directory.
    pub fn join(&self, name: &Name) -> (r: PathId)
        ensures
            r.0@ == self.0@.push('/') + name.0@,
    {
        let mut s = self.0.clone();
        push_char(&mut s, '/');
        s.append(name.0.as_str());
        PathId(s)
    }
}

impl From<Name> for PathId {
    fn from(name: Name) -> (r: PathId)
        ensures
            r.0@ == name.0@,
    {
        PathId(name.0)
    }
}

impl vstd::std_specs::convert::FromSpecImpl<Name> for PathId {
    open spec fn obeys_from_spec() -> bool {
        true
    }

    open spec fn from_spec(name: Name) -> PathId {
        PathId(name.0)
    }
}

/// Relies on std::path::MAIN_SEPARATOR: the platform's path separator, `/` or `\`.
#[verifier::external_body]
fn main_separator() -> (c: char)
    ensures
        c == '/' || c == '\\',
{
    std::path::MAIN_SEPARATOR
}

/// `s` with each `/` replaced by `separator`.
pub open spec fn with_separator(s: Seq<char>, separator: char) -> Seq<char> {
    s.map_values(|c: char| if c == '/' { separator } else { c })
}

/// The platform path of `relative` under `root`: `relative` alone when it is
/// absolute or `root` is empty, else `root`, a separator unless `root` ends
/// with one, and `relative`; each `/` of `relative` becomes `separator`.
pub open spec fn native_join(root: Seq<char>, relative: Seq<char>, separator: char) -> Seq<char> {
    let tail = with_separator(relative, separator);
    if (relative.len() > 0 && relative[0] == '/') || root.len() == 0 {
        tail
    } else if root.last() == '/' || root.last() == separator {
        root + tail
    } else {
        root.push(separator) + tail
    }
}

/// The local directory under which datasets are installed.
#[derive(Debug, Clone, PartialEq, Eq, Hash)]
pub struct PathRoot {
    pub root: String,
    pub separator: char,
}

impl PathRoot {
    /// A root at `root` that uses the platform's separator.
    pub fn new(root: String) -> (r: PathRoot)
        ensures
            r.root@ == root@,
            r.separator == '/' || r.separator == '\\',
    {
        PathRoot { root, separator: main_separator() }
    }

    /// The platform path of `path_id` under this root.
    pub fn join(&self, path_id: &PathId) -> (r: String)
        ensures
            r@ == native_join(self.root@, path_id.0@, self.separator),
    {
        self.join_str(path_id.0.as_str())
    }

    /// The platform path of `path_id` followed by `suffix`.
    pub fn join_with_suffix(&self, path_id: &PathId, suffix: &str) -> (r: String)
        ensures
            r@ == native_join(self.root@, path_id.0@ + suffix@, self.separator),
    {
        let mut s = path_id.0.clone();
        s.append(suffix);
        self.join_str(s.as_str())
    }

    /// The platform path of `path_id` followed by two suffixes.
    pub fn join_with_suffixes(&self, path_id: &PathId, first_suffix: &str, second_suffix: &str) -> (r:
        String)
        ensures
            r@ == native_join(self.root@, path_id.0@ + first_suffix@ + second_suffix@, self.separator),
    {
        let mut s = path_id.0.clone();
        s.append(first_suffix);
        s.append(second_suffix);
        self.join_str(s.as_str())
    }

    fn join_str(&self, relative: &str) -> (r: String)
        ensures
            r@ == native_join(self.root@, relative@, self.separator),
    {
        let rel = chars_of(relative);
        let root = chars_of(self.root.as_str());
        let mut s = String::new();
        if !((rel.len() > 0 && rel[0] == '/') || root.len() == 0) {
            s = self.root.clone();
            let last = root[root.len() - 1];
            if !(last == '/' || last == self.separator) {
                push_char(&mut s, self.separator);
            }
        }
        let ghost start = s@;
        let mut i: usize = 0;
        while i < rel.len()
            invariant
                rel@ == relative@,
                i <= rel@.len(),
                s@ == start + with_separator(rel@.subrange(0, i as int), self.separator),
            decreases rel@.len() - i,
        {
            let c = rel[i];
            push_char(&mut s, if c == '/' { self.separator } else { c });
            assert(with_separator(rel@.subrange(0, i + 1), self.separator) =~= with_separator(
                rel@.subrange(0, i as int),
                self.separator,
            ).push(if c == '/' { self.separator } else { c }));
            i = i + 1;
        }
        assert(rel@.subrange(0, rel@.len() as int) =~= rel@);
        assert(s@ =~= native_join(self.root@, relative@, self.separator));
        s
    }
}

} // verus!

verus! {

/// Progress of a decode, in bytes.
#[derive(Debug, Clone)]
pub struct DecodeProgress {
    pub path_id: PathId,
    pub initial_bytes: i64,
    pub current_bytes: i64,
    pub final_bytes: i64,
    pub complete: bool,
}

/// Progress of a download, in bytes.
#[derive(Debug, Clone)]
pub struct RemoteProgress {
    pub path_id: PathId,
    pub initial_bytes: i64,
    pub current_bytes: i64,
    pub final_bytes: i64,
    pub complete: bool,
}

/// Bytes already present and bytes wanted.
#[derive(Debug, Clone, Copy, PartialEq, Eq)]
pub struct Value {
    pub initial_bytes: u64,
    pub final_bytes: u64,
}

/// Bytes present locally and bytes served remotely.
#[derive(Debug, Clone, Copy, PartialEq, Eq)]
pub struct Report {
    pub local_bytes: u64,
    pub remote_bytes: u64,
}

/// What a directory holds and what is left to do in it.
#[derive(Debug, Clone)]
pub struct DirectoryScanned {
    pub path_id: PathId,
    pub initial_download_count: u64,
    pub initial_process_count: u64,
    pub final_count: u64,
    pub index: Value,
    pub download: Value,
    pub process: Value,
    pub calculate_size_compressed: Report,
    pub calculate_size_raw: Report,
}

/// How the fetch of a citation went.
#[derive(Debug, Clone)]
pub enum DoiStatus {
    Start,
    Success(String),
    Error(String),
}

/// What the engine reports to its caller.
#[derive(Debug, Clone)]
pub enum Message {
    IndexLoaded { path_id: PathId, children: usize },
    DirectoryScanned(DirectoryScanned),
    RemoteProgress(RemoteProgress),
    DecodeProgress(DecodeProgress),
    Doi { path_id: PathId, value: Doi },
    DoiProgress { value: Doi, status: DoiStatus },
}

impl From<RemoteProgress> for Message {
    fn from(item: RemoteProgress) -> (r: Message)
        ensures
            r == Message::RemoteProgress(item),
    {
        Message::RemoteProgress(item)
    }
}

impl vstd::std_specs::convert::FromSpecImpl<RemoteProgress> for Message {
    open spec fn obeys_from_spec() -> bool {
        true
    }

    open spec fn from_spec(item: RemoteProgress) -> Message {
        Message::RemoteProgress(item)
    }
}

impl From<DecodeProgress> for Message {
    fn from(item: DecodeProgress) -> (r: Message)
        ensures
            r == Message::DecodeProgress(item),
    {
        Message::DecodeProgress(item)
    }
}

impl vstd::std_specs::convert::FromSpecImpl<DecodeProgress> for Message {
    open spec fn obeys_from_spec() -> bool {
        true
    }

    open spec fn from_spec(item: DecodeProgress) -> Message {
        Message::DecodeProgress(item)
    }
}

/// Send the DOIs met in the indices.
#[derive(Debug, Clone, Copy)]
pub struct DispatchDois(pub bool);

/// Transfer and decode even what is already present.
#[derive(Debug, Clone, Copy)]
pub struct Force(pub bool);

/// Keep compressed files after decoding them.
#[derive(Debug, Clone, Copy)]
pub struct Keep(pub bool);

/// Indent the citations.
#[derive(Debug, Clone, Copy)]
pub struct Pretty(pub bool);

/// Measure local and remote sizes.
#[derive(Debug, Clone, Copy)]
pub struct CalculateSize(pub bool);

/// How many files may be open at once.
#[derive(Debug, Clone, Copy)]
pub struct FilePermits(pub usize);

/// How many indices may be downloaded at once.
#[derive(Debug, Clone, Copy)]
pub struct DownloadIndexPermits(pub usize);

/// How many data files may be downloaded at once.
#[derive(Debug, Clone, Copy)]
pub struct DownloadPermits(pub usize);

/// How many citations may be fetched at once.
#[derive(Debug, Clone, Copy)]
pub struct DownloadDoiPermits(pub usize);

/// How many files may be decoded at once.
#[derive(Debug, Clone, Copy)]
pub struct DecodePermits(pub usize);

impl Name {
    /// A copy of the name.
    pub fn duplicate(&self) -> (r: Name)
        ensures
            r == *self,
    {
        Name(self.0.clone())
    }
}

impl Doi {
    /// A copy of the DOI.
    pub fn duplicate(&self) -> (r: Doi)
        ensures
            r == *self,
    {
        Doi(self.0.clone())
    }
}

impl PathId {
    /// A copy of the location.
    pub fn duplicate(&self) -> (r: PathId)
        ensures
            r == *self,
    {
        PathId(self.0.clone())
    }
}

} // verus!

verus! {

/// Why a download failed.
#[derive(Debug, Clone)]
pub enum DownloadError {
    /// The transport failed, as the HTTP client described it.
    Connection(String),
    /// A file operation failed, as the system described it.
    File(String),
    Hash { path_id: PathId, expected: crate::digest::Hash, downloaded: crate::digest::Hash },
    Size { path_id: PathId, expected: u64, downloaded: u64 },
    Send(PathId),
    /// A permit could not be had: the action is being cancelled.
    Semaphore(String),
}

/// Why a decode failed.
#[derive(Debug, Clone)]
pub enum DecompressError {
    File(String),
    Decode { path_id: PathId },
    Hash { path_id: PathId, expected: crate::digest::Hash, downloaded: crate::digest::Hash },
    Size { path_id: PathId, expected: u64, downloaded: u64 },
    Interrupted,
    Send(PathId),
}

/// Why an action failed.
#[derive(Debug, Clone)]
pub enum ActionError {
    Download(DownloadError),
    Decompress(DecompressError),
    /// A task was aborted or panicked.
    Join(String),
    /// The datasets directory could not be made.
    Directory(String),
    /// An index file could not be read at this path.
    Read(String),
    /// An index file is not a valid index.
    Parse(String),
    Semaphore(String),
    /// The HTTP client could not be built.
    Tls(String),
    Send(PathId),
    DoiSend,
}

} // verus!
