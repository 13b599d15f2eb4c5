use vstd::prelude::*;

use crate::configuration::InstallableMode;
use crate::json_index::encoded_size;
use crate::json_index::Index;
use crate::json_index::Resource;
use crate::types::DirectoryScanned;
use crate::types::Force;
use crate::types::Message;
use crate::types::Name;
use crate::types::PathId;
use crate::types::Report;

verus! {

/// What lies on disk for one resource: the length of each regular file found,
/// at the raw path, at the compressed path of the best encoding, and at that
/// path's in-flight download.
#[derive(Debug, Clone, Copy, PartialEq, Eq)]
pub struct ResourceProbe {
    pub raw: Option<u64>,
    pub compressed: Option<u64>,
    pub partial: Option<u64>,
}

/// The numbers of a directory report, in this order: initial download count,
/// initial process count, final count, download initial and final bytes,
/// process initial and final bytes, compressed local and remote bytes, raw
/// local and remote bytes.
pub open spec fn tally_of(d: DirectoryScanned) -> Seq<int> {
    seq![
        d.initial_download_count as int,
        d.initial_process_count as int,
        d.final_count as int,
        d.download.initial_bytes as int,
        d.download.final_bytes as int,
        d.process.initial_bytes as int,
        d.process.final_bytes as int,
        d.calculate_size_compressed.local_bytes as int,
        d.calculate_size_compressed.remote_bytes as int,
        d.calculate_size_raw.local_bytes as int,
        d.calculate_size_raw.remote_bytes as int,
    ]
}

/// The length of `o`, zero when absent.
pub open spec fn length_or_zero(o: Option<u64>) -> int {
    match o {
        Some(l) => l as int,
        None => 0,
    }
}

/// The compressed bytes found locally: the compressed file, else its
/// in-flight download.
pub open spec fn compressed_local(p: ResourceProbe) -> int {
    if p.compressed is Some {
        length_or_zero(p.compressed)
    } else {
        length_or_zero(p.partial)
    }
}

/// What one resource adds to the report, in the order of `tally_of`. The best
/// encoding's size counts as downloaded once the raw file is present, the
/// compressed file's length once it is, and a partial download's length
/// (without counting the file) otherwise.
pub open spec fn resource_tally(
    r: Resource,
    p: ResourceProbe,
    mode: InstallableMode,
    force: bool,
    calculate_size: bool,
) -> Seq<int> {
    let transferred = encoded_size(r.size, r.best()) as int;
    let raw_size = r.size as int;
    let downloads = mode == InstallableMode::Local || mode == InstallableMode::Raw;
    let decodes = mode == InstallableMode::Raw;
    let resumes = !force && mode != InstallableMode::Remote;
    seq![
        if resumes && (p.raw is Some || p.compressed is Some) { 1 } else { 0 },
        if resumes && decodes && p.raw is Some { 1 } else { 0 },
        if downloads { 1 } else { 0 },
        if !resumes { 0 } else if p.raw is Some { transferred } else { compressed_local(p) },
        if downloads { transferred } else { 0 },
        if resumes && decodes { length_or_zero(p.raw) } else { 0 },
        if decodes { raw_size } else { 0 },
        if calculate_size { compressed_local(p) } else { 0 },
        if calculate_size { transferred } else { 0 },
        if calculate_size { length_or_zero(p.raw) } else { 0 },
        if calculate_size { raw_size } else { 0 },
    ]
}

/// Eleven zeros.
pub open spec fn zero_tally() -> Seq<int> {
    Seq::new(11, |k: int| 0)
}

/// The sum of two tallies, number by number.
pub open spec fn add_tally(a: Seq<int>, b: Seq<int>) -> Seq<int> {
    Seq::new(11, |k: int| a[k] + b[k])
}

/// What the first `n` resources of `index` add to the report.
pub open spec fn directory_tally(
    index: Index,
    probes: Seq<ResourceProbe>,
    mode: InstallableMode,
    force: bool,
    calculate_size: bool,
    n: nat,
) -> Seq<int>
    decreases n,
{
    if n == 0 {
        zero_tally()
    } else {
        add_tally(
            directory_tally(index, probes, mode, force, calculate_size, (n - 1) as nat),
            resource_tally(
                index.resource_at(n - 1),
                probes[n - 1],
                mode,
                force,
                calculate_size,
            ),
        )
    }
}

/// Every number of the tally fits in a `u64`.
pub open spec fn tally_fits(t: Seq<int>) -> bool {
    forall|k: int| 0 <= k < 11 ==> #[trigger] t[k] <= u64::MAX
}

proof fn lemma_resource_tally_nonnegative(
    r: Resource,
    p: ResourceProbe,
    mode: InstallableMode,
    force: bool,
    calculate_size: bool,
)
    ensures
        forall|k: int| 0 <= k < 11 ==> 0 <= #[trigger] resource_tally(r, p, mode, force, calculate_size)[k],
{
}

proof fn lemma_tally_grows(
    index: Index,
    probes: Seq<ResourceProbe>,
    mode: InstallableMode,
    force: bool,
    calculate_size: bool,
    m: nat,
    n: nat,
)
    requires
        m <= n,
    ensures
        forall|k: int|
            0 <= k < 11 ==> 0 <= #[trigger] directory_tally(index, probes, mode, force, calculate_size, m)[k]
                <= directory_tally(index, probes, mode, force, calculate_size, n)[k],
    decreases n,
{
    if n > 0 {
        let m2: nat = if m < n { m } else { (n - 1) as nat };
        lemma_tally_grows(index, probes, mode, force, calculate_size, m2, (n - 1) as nat);
        lemma_resource_tally_nonnegative(index.resource_at(n - 1), probes[n - 1], mode, force, calculate_size);
    }
}

/// What one resource adds to the report, as machine numbers.
fn resource_numbers(
    r: &Resource,
    p: ResourceProbe,
    mode: InstallableMode,
    force: bool,
    calculate_size: bool,
) -> (t: [u64; 11])
    ensures
        forall|k: int| 0 <= k < 11 ==> t@[k] as int == #[trigger] resource_tally(*r, p, mode, force, calculate_size)[k],
{
    let transferred = r.best_compression().1.size;
    let raw_size = r.size;
    let downloads = mode == InstallableMode::Local || mode == InstallableMode::Raw;
    let decodes = mode == InstallableMode::Raw;
    let resumes = !force && mode != InstallableMode::Remote;
    let raw = match p.raw {
        Some(l) => l,
        None => 0,
    };
    let compressed = match p.compressed {
        Some(l) => l,
        None => match p.partial {
            Some(l) => l,
            None => 0,
        },
    };
    let t = [
        if resumes && (p.raw.is_some() || p.compressed.is_some()) { 1 } else { 0 },
        if resumes && decodes && p.raw.is_some() { 1 } else { 0 },
        if downloads { 1 } else { 0 },
        if !resumes { 0 } else if p.raw.is_some() { transferred } else { compressed },
        if downloads { transferred } else { 0 },
        if resumes && decodes { raw } else { 0 },
        if decodes { raw_size } else { 0 },
        if calculate_size { compressed } else { 0 },
        if calculate_size { transferred } else { 0 },
        if calculate_size { raw } else { 0 },
        if calculate_size { raw_size } else { 0 },
    ];
    assert(t@ =~= seq![t@[0], t@[1], t@[2], t@[3], t@[4], t@[5], t@[6], t@[7], t@[8], t@[9], t@[10]]);
    t
}

/// The report of a directory: `index` for its index file, and the sum over
/// its resources of what each adds; `None` when a sum leaves `u64`.
pub fn scan_directory(
    path_id: &PathId,
    index_value: crate::types::Value,
    index: &Index,
    probes: &Vec<ResourceProbe>,
    mode: InstallableMode,
    force: Force,
    calculate_size: crate::types::CalculateSize,
) -> (r: Option<DirectoryScanned>)
    requires
        probes@.len() == index.resource_count(),
    ensures
        r is Some <==> tally_fits(
            directory_tally(*index, probes@, mode, force.0, calculate_size.0, index.resource_count()),
        ),
        r is Some ==> r.unwrap().path_id == *path_id && r.unwrap().index == index_value && tally_of(
            r.unwrap(),
        ) == directory_tally(*index, probes@, mode, force.0, calculate_size.0, index.resource_count()),
{
    let n = probes.len();
    let mut sums: [u64; 11] = [0; 11];
    let mut i: usize = 0;
    while i < n
        invariant
            n == index.resource_count(),
            probes@.len() == n,
            i <= n,
            forall|k: int|
                0 <= k < 11 ==> sums@[k] as int == #[trigger] directory_tally(
                    *index,
                    probes@,
                    mode,
                    force.0,
                    calculate_size.0,
                    i as nat,
                )[k],
        decreases n - i,
    {
        let t = resource_numbers(index.resource(i), probes[i], mode, force.0, calculate_size.0);
        let ghost before = sums@;
        let ghost next = directory_tally(*index, probes@, mode, force.0, calculate_size.0, (i + 1) as nat);
        assert(next == add_tally(
            directory_tally(*index, probes@, mode, force.0, calculate_size.0, i as nat),
            resource_tally(index.resource_at(i as int), probes@[i as int], mode, force.0, calculate_size.0),
        ));
        assert forall|j: int| 0 <= j < 11 implies #[trigger] next[j] == before[j] as int + t@[j] as int by {
        }
        let mut k: usize = 0;
        while k < 11
            invariant
                i < n,
                n == index.resource_count(),
                probes@.len() == n,
                next == directory_tally(*index, probes@, mode, force.0, calculate_size.0, (i + 1) as nat),
                k <= 11,
                forall|j: int| 0 <= j < k ==> sums@[j] as int == #[trigger] next[j],
                forall|j: int| k <= j < 11 ==> sums@[j] == #[trigger] before[j],
                forall|j: int|
                    0 <= j < 11 ==> #[trigger] next[j] == before[j] as int + t@[j] as int,
            decreases 11 - k,
        {
            match sums[k].checked_add(t[k]) {
                Some(s) => {
                    sums[k] = s;
                },
                None => {
                    proof {
                        lemma_tally_grows(
                            *index,
                            probes@,
                            mode,
                            force.0,
                            calculate_size.0,
                            (i + 1) as nat,
                            n as nat,
                        );
                        assert(!tally_fits(
                            directory_tally(*index, probes@, mode, force.0, calculate_size.0, n as nat),
                        )) by {
                            assert(next[k as int] > u64::MAX);
                        }
                    }
                    return None;
                },
            }
            k = k + 1;
        }
        i = i + 1;
    }
    let scanned = DirectoryScanned {
        path_id: path_id.duplicate(),
        initial_download_count: sums[0],
        initial_process_count: sums[1],
        final_count: sums[2],
        index: index_value,
        download: crate::types::Value { initial_bytes: sums[3], final_bytes: sums[4] },
        process: crate::types::Value { initial_bytes: sums[5], final_bytes: sums[6] },
        calculate_size_compressed: Report { local_bytes: sums[7], remote_bytes: sums[8] },
        calculate_size_raw: Report { local_bytes: sums[9], remote_bytes: sums[10] },
    };
    assert(tally_of(scanned) =~= directory_tally(
        *index,
        probes@,
        mode,
        force.0,
        calculate_size.0,
        n as nat,
    ));
    Some(scanned)
}

/// The name of a directory's index file.
pub fn index_name() -> (r: Name)
    ensures
        r.0@ == "-index.json"@,
{
    Name(String::from_str("-index.json"))
}

/// The index bytes present before the index is downloaded: none when forcing;
/// else the index file's length, both initial and final; else the length of
/// its in-flight download, as initial only.
pub fn initial_index_value(force: Force, index_file: Option<u64>, partial: Option<u64>) -> (r:
    crate::types::Value)
    ensures
        force.0 ==> r == (crate::types::Value { initial_bytes: 0, final_bytes: 0 }),
        !force.0 && index_file is Some ==> r == (crate::types::Value {
            initial_bytes: index_file.unwrap(),
            final_bytes: index_file.unwrap(),
        }),
        !force.0 && index_file is None && partial is Some ==> r == (crate::types::Value {
            initial_bytes: partial.unwrap(),
            final_bytes: 0,
        }),
        !force.0 && index_file is None && partial is None ==> r == (crate::types::Value {
            initial_bytes: 0,
            final_bytes: 0,
        }),
{
    if force.0 {
        crate::types::Value { initial_bytes: 0, final_bytes: 0 }
    } else {
        match index_file {
            Some(length) => crate::types::Value { initial_bytes: length, final_bytes: length },
            None => match partial {
                Some(length) => crate::types::Value { initial_bytes: length, final_bytes: 0 },
                None => crate::types::Value { initial_bytes: 0, final_bytes: 0 },
            },
        }
    }
}

/// The index value once the index is downloaded: a final size of zero is
/// replaced by the length of the written index file; `None` when that file is
/// missing.
pub fn index_value_after_download(value: crate::types::Value, written: Option<u64>) -> (r: Option<
    crate::types::Value,
>)
    ensures
        value.final_bytes != 0 ==> r == Some(value),
        value.final_bytes == 0 && written is None ==> r is None,
        value.final_bytes == 0 && written is Some ==> r == Some(
            crate::types::Value { initial_bytes: value.initial_bytes, final_bytes: written.unwrap() },
        ),
{
    if value.final_bytes != 0 {
        Some(value)
    } else {
        match written {
            Some(length) => Some(
                crate::types::Value { initial_bytes: value.initial_bytes, final_bytes: length },
            ),
            None => None,
        }
    }
}

/// The message that an index was loaded, with its number of subdirectories.
pub fn index_loaded(path_id: &PathId, index: &Index) -> (r: Message)
    ensures
        r == (Message::IndexLoaded { path_id: *path_id, children: index.directories@.len() as usize }),
{
    Message::IndexLoaded { path_id: path_id.duplicate(), children: index.directories.len() }
}

/// The message for the DOI of a directory, when DOIs are dispatched and the
/// directory has one.
pub fn index_doi(path_id: &PathId, index: &Index, dispatch_dois: crate::types::DispatchDois) -> (r: Option<Message>)
    ensures
        dispatch_dois.0 && index.doi is Some ==> r == Some(
            Message::Doi { path_id: *path_id, value: index.doi.unwrap() },
        ),
        !(dispatch_dois.0 && index.doi is Some) ==> r is None,
{
    if dispatch_dois.0 {
        match &index.doi {
            Some(doi) => Some(Message::Doi { path_id: path_id.duplicate(), value: doi.duplicate() }),
            None => None,
        }
    } else {
        None
    }
}

/// The locations of the subdirectories of a directory, in order.
pub fn child_path_ids(path_id: &PathId, index: &Index) -> (r: Vec<PathId>)
    ensures
        r@.len() == index.directories@.len(),
        forall|k: int|
            0 <= k < r@.len() ==> #[trigger] r@[k].0@ == path_id.0@.push('/') + index.directories@[k].0@,
{
    let mut r: Vec<PathId> = Vec::new();
    let mut i: usize = 0;
    while i < index.directories.len()
        invariant
            i <= index.directories@.len(),
            r@.len() == i,
            forall|k: int|
                0 <= k < i ==> #[trigger] r@[k].0@ == path_id.0@.push('/') + index.directories@[k].0@,
        decreases index.directories@.len() - i,
    {
        r.push(path_id.join(&index.directories[i]));
        i = i + 1;
    }
    r
}

/// The positions of the resources that carry a DOI, among the first `n`.
pub open spec fn doi_positions(index: Index, n: nat) -> Seq<int>
    decreases n,
{
    if n == 0 {
        Seq::empty()
    } else if index.resource_at(n - 1).doi is Some {
        doi_positions(index, (n - 1) as nat).push(n - 1)
    } else {
        doi_positions(index, (n - 1) as nat)
    }
}

/// The messages for the DOIs of a directory's resources, in order, when DOIs
/// are dispatched.
pub fn resource_dois(path_id: &PathId, index: &Index, dispatch_dois: crate::types::DispatchDois) -> (r: Vec<Message>)
    requires
        index.resource_count() <= usize::MAX,
    ensures
        !dispatch_dois.0 ==> r@.len() == 0,
        dispatch_dois.0 ==> r@.len() == doi_positions(*index, index.resource_count()).len(),
        dispatch_dois.0 ==> forall|k: int|
            0 <= k < r@.len() ==> {
                let at = #[trigger] doi_positions(*index, index.resource_count())[k];
                let resource = index.resource_at(at);
                r@[k] matches Message::Doi { path_id: p, value } && p.0@ == path_id.0@.push('/')
                    + resource.name.0@ && value == resource.doi.unwrap()
            },
{
    let mut r: Vec<Message> = Vec::new();
    if !dispatch_dois.0 {
        return r;
    }
    let n = index.resource_len();
    let mut i: usize = 0;
    while i < n
        invariant
            n == index.resource_count(),
            i <= n,
            r@.len() == doi_positions(*index, i as nat).len(),
            forall|k: int|
                0 <= k < r@.len() ==> {
                    let at = #[trigger] doi_positions(*index, i as nat)[k];
                    let resource = index.resource_at(at);
                    r@[k] matches Message::Doi { path_id: p, value } && p.0@ == path_id.0@.push('/')
                        + resource.name.0@ && value == resource.doi.unwrap()
                },
        decreases n - i,
    {
        let resource = index.resource(i);
        match &resource.doi {
            Some(doi) => {
                r.push(Message::Doi { path_id: path_id.join(&resource.name), value: doi.duplicate() });
            },
            None => {},
        }
        assert(doi_positions(*index, (i + 1) as nat) == if index.resource_at(i as int).doi is Some {
            doi_positions(*index, i as nat).push(i as int)
        } else {
            doi_positions(*index, i as nat)
        });
        i = i + 1;
    }
    r
}

/// The decode that follows a download.
#[derive(Debug, Clone, Copy)]
pub struct DecodeTask {
    pub size: u64,
    pub hash: crate::digest::Hash,
}

/// The work on one resource: download its best encoding, then decode it when
/// `decode` is set.
#[derive(Debug, Clone)]
pub struct FileTask {
    pub path_id: PathId,
    pub download_size: u64,
    pub download_hash: crate::digest::Hash,
    pub suffix: Name,
    pub decode: Option<DecodeTask>,
}

/// A resource gets a task in local and raw mode, unless, in raw mode and
/// without forcing, its raw file is present.
pub open spec fn needs_task(mode: InstallableMode, force: bool, raw_present: bool) -> bool {
    (mode == InstallableMode::Local || mode == InstallableMode::Raw) && (force || mode
        != InstallableMode::Raw || !raw_present)
}

/// The positions of the resources that get a task, among the first `n`.
pub open spec fn task_positions(
    raw_present: Seq<bool>,
    mode: InstallableMode,
    force: bool,
    n: nat,
) -> Seq<int>
    decreases n,
{
    if n == 0 {
        Seq::empty()
    } else if needs_task(mode, force, raw_present[n - 1]) {
        task_positions(raw_present, mode, force, (n - 1) as nat).push(n - 1)
    } else {
        task_positions(raw_present, mode, force, (n - 1) as nat)
    }
}

/// `t` is the task for resource `r` of the directory at `path_id`: the best
/// encoding is downloaded, and decoded to the raw size and digest in raw mode
/// when it is Brotli.
pub open spec fn is_task_for(t: FileTask, path_id: PathId, r: Resource, mode: InstallableMode) -> bool {
    let best = r.best();
    &&& t.path_id.0@ == path_id.0@.push('/') + r.name.0@
    &&& t.download_size == crate::json_index::encoded_size(r.size, best)
    &&& t.download_hash == crate::json_index::encoded_hash(r.hash, best)
    &&& t.suffix == crate::json_index::encoded_suffix(best)
    &&& (t.decode is Some <==> (mode == InstallableMode::Raw && best is Brotli))
    &&& t.decode is Some ==> t.decode.unwrap() == (DecodeTask { size: r.size, hash: r.hash })
}

/// The tasks of a directory, in the order of its resources; `raw_present`
/// tells, for each resource, whether its raw file is present.
pub fn plan_file_tasks(
    path_id: &PathId,
    index: &Index,
    raw_present: &Vec<bool>,
    mode: InstallableMode,
    force: Force,
) -> (r: Vec<FileTask>)
    requires
        raw_present@.len() == index.resource_count(),
    ensures
        r@.len() == task_positions(raw_present@, mode, force.0, index.resource_count()).len(),
        forall|k: int|
            0 <= k < r@.len() ==> is_task_for(
                #[trigger] r@[k],
                *path_id,
                index.resource_at(task_positions(raw_present@, mode, force.0, index.resource_count())[k]),
                mode,
            ),
{
    let mut r: Vec<FileTask> = Vec::new();
    let n = raw_present.len();
    let mut i: usize = 0;
    while i < n
        invariant
            n == index.resource_count(),
            raw_present@.len() == n,
            i <= n,
            r@.len() == task_positions(raw_present@, mode, force.0, i as nat).len(),
            forall|k: int|
                0 <= k < r@.len() ==> is_task_for(
                    #[trigger] r@[k],
                    *path_id,
                    index.resource_at(task_positions(raw_present@, mode, force.0, i as nat)[k]),
                    mode,
                ),
        decreases n - i,
    {
        let wanted = (mode == InstallableMode::Local || mode == InstallableMode::Raw) && (force.0
            || mode != InstallableMode::Raw || !raw_present[i]);
        if wanted {
            let resource = index.resource(i);
            let (compression, properties) = resource.best_compression();
            let decode = match compression {
                crate::json_index::Compression::Brotli { .. } => if mode == InstallableMode::Raw {
                    Some(DecodeTask { size: resource.size, hash: resource.hash })
                } else {
                    None
                },
                crate::json_index::Compression::NoneCompression { .. } => None,
            };
            r.push(
                FileTask {
                    path_id: path_id.join(&resource.name),
                    download_size: properties.size,
                    download_hash: *properties.hash,
                    suffix: properties.suffix.duplicate(),
                    decode,
                },
            );
        }
        assert(task_positions(raw_present@, mode, force.0, (i + 1) as nat) == if needs_task(
            mode,
            force.0,
            raw_present@[i as int],
        ) {
            task_positions(raw_present@, mode, force.0, i as nat).push(i as int)
        } else {
            task_positions(raw_present@, mode, force.0, i as nat)
        });
        i = i + 1;
    }
    r
}

/// In remote mode no resource gets a task: taking stock, and sizing, only
/// ever download index files.
pub proof fn lemma_remote_mode_plans_nothing(raw_present: Seq<bool>, force: bool, n: nat)
    ensures
        task_positions(raw_present, InstallableMode::Remote, force, n).len() == 0,
    decreases n,
{
    if n > 0 {
        lemma_remote_mode_plans_nothing(raw_present, force, (n - 1) as nat);
    }
}

/// In raw mode, without forcing, a directory whose raw files are all present
/// gets no task: a second install transfers no data.
pub proof fn lemma_present_files_plan_nothing(raw_present: Seq<bool>, n: nat)
    requires
        n <= raw_present.len(),
        forall|i: int| 0 <= i < n ==> #[trigger] raw_present[i],
    ensures
        task_positions(raw_present, InstallableMode::Raw, false, n).len() == 0,
    decreases n,
{
    if n > 0 {
        lemma_present_files_plan_nothing(raw_present, (n - 1) as nat);
    }
}

} // verus!
