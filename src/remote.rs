use vstd::prelude::*;

use crate::text::chars_of;
use crate::text::push_char;
use crate::transfer::sha3_224;
use crate::transfer::Transfer;
use crate::types::DownloadError;
use crate::types::Force;
use crate::types::Name;
use crate::types::PathId;
use crate::types::RemoteProgress;

verus! {

/// The server of one dataset: the base URL under which its files are served.
#[derive(Debug, Clone)]
pub struct Server {
    url: String,
    url_ends_with_separator: bool,
}

/// `i` is the position of the first `/` of `s`.
pub open spec fn is_first_slash(s: Seq<char>, i: int) -> bool {
    &&& 0 <= i < s.len()
    &&& s[i] == '/'
    &&& forall|j: int| 0 <= j < i ==> #[trigger] s[j] != '/'
}

/// The URL of a file: the base, a `/` unless the base ends with one, the
/// location without its first name (the dataset's), and the suffix; the base
/// alone for a location of one name.
pub open spec fn file_url(base: Seq<char>, path: Seq<char>, suffix: Seq<char>) -> Seq<char> {
    if exists|i: int| is_first_slash(path, i) {
        let i = choose|i: int| is_first_slash(path, i);
        let separator = if base.len() > 0 && base.last() == '/' {
            Seq::<char>::empty()
        } else {
            seq!['/']
        };
        base + separator + path.subrange(i + 1, path.len() as int) + suffix
    } else {
        base
    }
}

proof fn lemma_first_slash_unique(s: Seq<char>, i: int, j: int)
    requires
        is_first_slash(s, i),
        is_first_slash(s, j),
    ensures
        i == j,
{
    if i < j {
        assert(s[i] != '/');
    } else if j < i {
        assert(s[j] != '/');
    }
}

impl Server {
    /// The base URL.
    pub closed spec fn base(&self) -> Seq<char> {
        self.url@
    }

    pub closed spec fn wf(&self) -> bool {
        self.url_ends_with_separator == (self.url@.len() > 0 && self.url@.last() == '/')
    }

    /// The server of files under `url`.
    pub fn new(url: &str) -> (r: Server)
        ensures
            r.wf(),
            r.base() == url@,
    {
        let c = chars_of(url);
        let ends = c.len() > 0 && c[c.len() - 1] == '/';
        Server { url: url.to_owned(), url_ends_with_separator: ends }
    }

    /// The URL of `path_id` with `suffix`.
    pub fn url_from_path_id_and_suffix(&self, path_id: &PathId, suffix: &Name) -> (r: String)
        requires
            self.wf(),
        ensures
            r@ == file_url(self.base(), path_id.0@, suffix.0@),
    {
        let path = chars_of(path_id.0.as_str());
        let mut i: usize = 0;
        while i < path.len() && path[i] != '/'
            invariant
                path@ == path_id.0@,
                i <= path@.len(),
                forall|j: int| 0 <= j < i ==> #[trigger] path@[j] != '/',
            decreases path@.len() - i,
        {
            i = i + 1;
        }
        if i == path.len() {
            assert(!exists|k: int| is_first_slash(path_id.0@, k)) by {
                if exists|k: int| is_first_slash(path_id.0@, k) {
                    let k = choose|k: int| is_first_slash(path_id.0@, k);
                    assert(path@[k] != '/');
                }
            }
            return self.url.clone();
        }
        assert(is_first_slash(path_id.0@, i as int));
        proof {
            lemma_first_slash_unique(path_id.0@, i as int, choose|k: int| is_first_slash(path_id.0@, k));
        }
        let mut r = self.url.clone();
        if !self.url_ends_with_separator {
            push_char(&mut r, '/');
        }
        let mut j: usize = i + 1;
        while j < path.len()
            invariant
                path@ == path_id.0@,
                i < j <= path@.len(),
                r@ == self.url@ + (if self.url_ends_with_separator {
                    Seq::<char>::empty()
                } else {
                    seq!['/']
                }) + path@.subrange(i + 1, j as int),
            decreases path@.len() - j,
        {
            push_char(&mut r, path[j]);
            assert(path@.subrange(i + 1, j + 1) =~= path@.subrange(i + 1, j as int).push(path@[j as int]));
            j = j + 1;
        }
        r.append(suffix.0.as_str());
        assert(r@ =~= file_url(self.base(), path_id.0@, suffix.0@));
        r
    }
}

/// Where a download starts from.
pub enum DownloadState<Context> {
    /// The file is already complete: nothing is transferred.
    Complete(),
    /// A partial download of `skip` bytes is resumed.
    Partial { skip: u64, context: Context },
    /// The download starts from nothing.
    NotStarted(Context),
}

/// Where a download starts from: from nothing when forcing; complete when the
/// completed file is present; resumed from the in-flight download when that
/// is present; else from nothing. `target` and `partial` are the lengths of
/// the completed file and of the in-flight download, when they are regular
/// files.
pub fn download_begin(force: Force, target: Option<u64>, partial: Option<u64>) -> (r: DownloadState<()>)
    ensures
        force.0 ==> r is NotStarted,
        !force.0 && target is Some ==> r is Complete,
        !force.0 && target is None && partial is Some ==> r == (DownloadState::Partial::<()> {
            skip: partial.unwrap(),
            context: (),
        }),
        !force.0 && target is None && partial is None ==> r is NotStarted,
{
    if force.0 {
        DownloadState::NotStarted(())
    } else if target.is_some() {
        DownloadState::Complete()
    } else {
        match partial {
            Some(skip) => DownloadState::Partial { skip, context: () },
            None => DownloadState::NotStarted(()),
        }
    }
}

/// The terminal progress of a file found complete: its expected size, else its
/// length, as initial, current and final bytes.
pub fn already_complete_progress(path_id: &PathId, expected_size: Option<u64>, length: u64) -> (r:
    RemoteProgress)
    requires
        expected_size is Some ==> expected_size.unwrap() <= i64::MAX,
        expected_size is None ==> length <= i64::MAX,
    ensures
        r.path_id == *path_id,
        r.complete,
        r.initial_bytes == r.current_bytes,
        r.current_bytes == r.final_bytes,
        expected_size is Some ==> r.final_bytes == expected_size.unwrap(),
        expected_size is None ==> r.final_bytes == length,
{
    let size = match expected_size {
        Some(s) => s,
        None => length,
    } as i64;
    RemoteProgress {
        path_id: path_id.duplicate(),
        initial_bytes: size,
        current_bytes: size,
        final_bytes: size,
        complete: true,
    }
}

/// The value of the `Range` header that resumes after `skip` bytes.
pub fn range_header(skip: u64) -> (r: String)
    ensures
        r@ == seq!['b', 'y', 't', 'e', 's', '='] + crate::text::decimal(skip as nat) + seq!['-'],
{
    let mut r = String::new();
    push_char(&mut r, 'b');
    push_char(&mut r, 'y');
    push_char(&mut r, 't');
    push_char(&mut r, 'e');
    push_char(&mut r, 's');
    push_char(&mut r, '=');
    crate::text::push_decimal(&mut r, skip);
    push_char(&mut r, '-');
    assert(r@ =~= seq!['b', 'y', 't', 'e', 's', '='] + crate::text::decimal(skip as nat) + seq!['-']);
    r
}

/// Whether a ranged request was honoured: the status is 206 Partial Content.
pub fn range_accepted(status: u16) -> (r: bool)
    ensures
        r == (status == 206),
{
    status == 206
}

/// The progress that withdraws the `skip` bytes of a partial download whose
/// range request was refused.
pub fn range_rejected_progress(path_id: &PathId, skip: u64) -> (r: RemoteProgress)
    requires
        skip <= i64::MAX,
    ensures
        r.path_id == *path_id,
        !r.complete,
        r.initial_bytes == -(skip as int),
        r.current_bytes == -(skip as int),
        r.final_bytes == -(skip as int),
{
    let size = -(skip as i64);
    RemoteProgress {
        path_id: path_id.duplicate(),
        initial_bytes: size,
        current_bytes: size,
        final_bytes: size,
        complete: false,
    }
}

/// The progress of `delta` more bytes.
pub fn remote_chunk_progress(path_id: &PathId, delta: i64) -> (r: RemoteProgress)
    ensures
        r == (RemoteProgress {
            path_id: *path_id,
            initial_bytes: 0,
            current_bytes: delta,
            final_bytes: delta,
            complete: false,
        }),
{
    RemoteProgress {
        path_id: path_id.duplicate(),
        initial_bytes: 0,
        current_bytes: delta,
        final_bytes: delta,
        complete: false,
    }
}

/// Checks a finished download against its expected digest, then its expected
/// size. On success, returns the terminal progress to send once the file is
/// renamed into place, whatever its length.
pub fn finish_download(
    path_id: &PathId,
    transfer: Transfer,
    expected_hash: Option<crate::digest::Hash>,
    expected_size: Option<u64>,
) -> (r: Result<RemoteProgress, DownloadError>)
    requires
        transfer.wf(),
    ensures
        match (expected_hash, expected_size) {
            (Some(e), _) if transfer.hashes() && sha3_224(transfer.received()) != e.0@ => r matches Err(
                DownloadError::Hash { path_id: p, expected, downloaded },
            ) && p == *path_id && expected == e && downloaded.0@ == sha3_224(transfer.received()),
            (_, Some(e)) if transfer.counts() && transfer.received().len() != e => r matches Err(
                DownloadError::Size { path_id: p, expected, downloaded },
            ) && p == *path_id && expected == e && downloaded == transfer.received().len(),
            _ => r == Ok::<RemoteProgress, DownloadError>(
                RemoteProgress {
                    path_id: *path_id,
                    initial_bytes: 0,
                    current_bytes: 0,
                    final_bytes: 0,
                    complete: true,
                },
            ),
        },
{
    match transfer.check(expected_hash, expected_size) {
        Ok(()) => Ok(
            RemoteProgress {
                path_id: path_id.duplicate(),
                initial_bytes: 0,
                current_bytes: 0,
                final_bytes: 0,
                complete: true,
            },
        ),
        Err(crate::transfer::Mismatch::Hash { expected, computed }) => Err(
            DownloadError::Hash { path_id: path_id.duplicate(), expected, downloaded: computed },
        ),
        Err(crate::transfer::Mismatch::Size { expected, computed }) => Err(
            DownloadError::Size { path_id: path_id.duplicate(), expected, downloaded: computed },
        ),
    }
}

} // verus!
