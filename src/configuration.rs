use vstd::prelude::*;

verus! {

/// What is installed of a dataset.
#[derive(Debug, Clone, Copy, PartialEq, Eq, Structural)]
pub enum Mode {
    /// Nothing.
    Disabled,
    /// The indices only.
    Remote,
    /// The indices and the compressed files.
    Local,
    /// The indices and the raw files.
    Raw,
}

/// The mode of a dataset that is not disabled.
#[derive(Debug, Clone, Copy, PartialEq, Eq, Structural)]
pub enum InstallableMode {
    Remote,
    Local,
    Raw,
}

/// The installable mode for `mode`; `None` for a disabled dataset.
pub open spec fn installable(mode: Mode) -> Option<InstallableMode> {
    match mode {
        Mode::Disabled => None,
        Mode::Remote => Some(InstallableMode::Remote),
        Mode::Local => Some(InstallableMode::Local),
        Mode::Raw => Some(InstallableMode::Raw),
    }
}

impl TryFrom<Mode> for InstallableMode {
    type Error = ();

    fn try_from(mode: Mode) -> (r: Result<InstallableMode, ()>)
        ensures
            r == match installable(mode) {
                Some(m) => Ok::<InstallableMode, ()>(m),
                None => Err(()),
            },
    {
        match mode {
            Mode::Disabled => Err(()),
            Mode::Remote => Ok(InstallableMode::Remote),
            Mode::Local => Ok(InstallableMode::Local),
            Mode::Raw => Ok(InstallableMode::Raw),
        }
    }
}

} // verus!

verus! {

impl vstd::std_specs::convert::TryFromSpecImpl<Mode> for InstallableMode {
    open spec fn obeys_try_from_spec() -> bool {
        true
    }

    open spec fn try_from_spec(mode: Mode) -> Result<InstallableMode, ()> {
        match installable(mode) {
            Some(m) => Ok(m),
            None => Err(()),
        }
    }
}

} // verus!

verus! {

/// One dataset of a configuration.
#[derive(Debug, Clone)]
pub struct DatasetSettings {
    pub name: crate::types::Name,
    /// The base URL under which its files are served.
    pub url: String,
    pub mode: Mode,
    /// The connect timeout, in milliseconds.
    pub timeout_milliseconds: Option<i64>,
}

/// The datasets to install and the directory that holds them.
#[derive(Debug, Clone)]
pub struct Configuration {
    pub directory: String,
    pub datasets: Vec<DatasetSettings>,
}

/// Why a configuration was refused.
#[derive(Debug, Clone)]
pub enum ConfigurationError {
    /// The configuration file's path could not be resolved.
    Resolve { path: String },
    /// The configuration file could not be read.
    Read { path: String },
    /// The configuration file is not valid TOML for a configuration.
    Parse(String),
    /// Two datasets share this name.
    Duplicate(crate::types::Name),
    /// The directory is relative and the configuration file has no parent.
    NoParent { path: String, directory: String },
    /// A timeout is negative, here in milliseconds.
    NegativeTimeout(i64),
}

/// Dataset `i` has the name of an earlier one.
pub open spec fn is_duplicate(ds: Seq<DatasetSettings>, i: int) -> bool {
    exists|j: int| 0 <= j < i && #[trigger] ds[j].name.0@ == ds[i].name.0@
}

/// Dataset `i` has a negative timeout.
pub open spec fn has_negative_timeout(ds: Seq<DatasetSettings>, i: int) -> bool {
    ds[i].timeout_milliseconds is Some && ds[i].timeout_milliseconds.unwrap() < 0
}

/// Dataset `i` makes the configuration invalid.
pub open spec fn is_invalid(ds: Seq<DatasetSettings>, i: int) -> bool {
    is_duplicate(ds, i) || has_negative_timeout(ds, i)
}

impl Configuration {
    /// Checks the datasets in order; the first that repeats an earlier name,
    /// or else has a negative timeout, makes the error.
    pub fn validate(&self) -> (r: Result<(), ConfigurationError>)
        ensures
            r is Ok <==> forall|i: int| 0 <= i < self.datasets@.len() ==> !is_invalid(self.datasets@, i),
            r is Err ==> exists|i: int|
                0 <= i < self.datasets@.len() && is_invalid(self.datasets@, i) && (forall|j: int|
                    0 <= j < i ==> !is_invalid(self.datasets@, j)) && (if is_duplicate(
                    self.datasets@,
                    i,
                ) {
                    r matches Err(ConfigurationError::Duplicate(name)) && name == self.datasets@[i].name
                } else {
                    r == Err::<(), ConfigurationError>(
                        ConfigurationError::NegativeTimeout(
                            self.datasets@[i].timeout_milliseconds.unwrap(),
                        ),
                    )
                }),
    {
        let ds = &self.datasets;
        let mut i: usize = 0;
        while i < ds.len()
            invariant
                i <= ds@.len(),
                ds@ == self.datasets@,
                forall|k: int| 0 <= k < i ==> !is_invalid(ds@, k),
            decreases ds@.len() - i,
        {
            let mut j: usize = 0;
            while j < i
                invariant
                    i < ds@.len(),
                    ds@ == self.datasets@,
                    forall|k: int| 0 <= k < i ==> !is_invalid(ds@, k),
                    j <= i,
                    forall|k: int| 0 <= k < j ==> ds@[k].name.0@ != ds@[i as int].name.0@,
                decreases i - j,
            {
                if ds[j].name.0 == ds[i].name.0 {
                    assert(is_duplicate(ds@, i as int));
                    assert(is_invalid(ds@, i as int));
                    return Err(ConfigurationError::Duplicate(ds[i].name.duplicate()));
                }
                j = j + 1;
            }
            assert(!is_duplicate(ds@, i as int));
            match ds[i].timeout_milliseconds {
                Some(t) => {
                    if t < 0 {
                        assert(is_invalid(ds@, i as int));
                        return Err(ConfigurationError::NegativeTimeout(t));
                    }
                },
                None => {},
            }
            i = i + 1;
        }
        Ok(())
    }

    /// The datasets to walk, in order: those that are not disabled, each with
    /// its position, its root location (its name) and its mode.
    pub fn walk_roots(&self) -> (r: Vec<(usize, crate::types::PathId, InstallableMode)>)
        ensures
            r@.len() == enabled_positions(self.datasets@, self.datasets@.len()).len(),
            forall|k: int|
                0 <= k < r@.len() ==> {
                    let at = #[trigger] enabled_positions(self.datasets@, self.datasets@.len())[k];
                    &&& r@[k].0 == at
                    &&& r@[k].1.0@ == self.datasets@[at].name.0@
                    &&& Some(r@[k].2) == installable(self.datasets@[at].mode)
                },
    {
        let mut r: Vec<(usize, crate::types::PathId, InstallableMode)> = Vec::new();
        let mut i: usize = 0;
        while i < self.datasets.len()
            invariant
                i <= self.datasets@.len(),
                r@.len() == enabled_positions(self.datasets@, i as nat).len(),
                forall|k: int|
                    0 <= k < r@.len() ==> {
                        let at = #[trigger] enabled_positions(self.datasets@, i as nat)[k];
                        &&& r@[k].0 == at
                        &&& r@[k].1.0@ == self.datasets@[at].name.0@
                        &&& Some(r@[k].2) == installable(self.datasets@[at].mode)
                    },
            decreases self.datasets@.len() - i,
        {
            let dataset = &self.datasets[i];
            match InstallableMode::try_from(dataset.mode) {
                Ok(mode) => {
                    r.push((i, crate::types::PathId(dataset.name.0.clone()), mode));
                },
                Err(()) => {},
            }
            assert(enabled_positions(self.datasets@, (i + 1) as nat) == if installable(
                self.datasets@[i as int].mode,
            ) is Some {
                enabled_positions(self.datasets@, i as nat).push(i as int)
            } else {
                enabled_positions(self.datasets@, i as nat)
            });
            i = i + 1;
        }
        r
    }
}

/// The positions of the datasets that are not disabled, among the first `n`.
pub open spec fn enabled_positions(ds: Seq<DatasetSettings>, n: nat) -> Seq<int>
    decreases n,
{
    if n == 0 {
        Seq::empty()
    } else if installable(ds[n - 1].mode) is Some {
        enabled_positions(ds, (n - 1) as nat).push(n - 1)
    } else {
        enabled_positions(ds, (n - 1) as nat)
    }
}

/// The size of the install's file semaphore: one permit is held back for
/// reads that no permit accounts for.
pub fn install_file_permits(file_permits: crate::types::FilePermits) -> (r: usize)
    requires
        file_permits.0 >= 1,
    ensures
        r == file_permits.0 - 1,
{
    file_permits.0 - 1
}

/// The connect timeout of a dataset, in milliseconds: its own, else the
/// default.
pub fn timeout_milliseconds(dataset: &DatasetSettings) -> (r: i64)
    ensures
        dataset.timeout_milliseconds is Some ==> r == dataset.timeout_milliseconds.unwrap(),
        dataset.timeout_milliseconds is None ==> r == crate::constants::DEFAULT_TIMEOUT_MILLISECONDS,
{
    match dataset.timeout_milliseconds {
        Some(t) => t,
        None => crate::constants::DEFAULT_TIMEOUT_MILLISECONDS,
    }
}

} // verus!
