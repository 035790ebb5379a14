//! YAML configuration: job definitions and global settings.

use vstd::prelude::*;
use std::collections::HashMap;
use std::time::Duration;
use crate::base::dag::TaskCondition;
use crate::base::duration::{duration_from_secs, duration_secs, secs_duration};
use crate::base::job::DependencyCondition;
use crate::base::retry::{RetryCondition, RetryPolicy};
use crate::base::schedule::{expression_valid, timezone_valid, Schedule, ScheduleError};

verus! {

/// `std::io::Error`, carried by the error of a failed file read.
#[verifier::external_type_specification]
#[verifier::external_body]
pub struct ExIoError(std::io::Error);

/// `serde_yaml::Error`, carried by the error of a failed YAML parse.
#[verifier::external_type_specification]
#[verifier::external_body]
pub struct ExYamlError(serde_yaml::Error);

/// `serde_yaml::Value`, the values of free-form configuration maps.
#[verifier::external_type_specification]
#[verifier::external_body]
pub struct ExYamlValue(serde_yaml::Value);

/// Errors that can occur when loading configuration.
#[derive(Debug)]
pub enum ConfigError {
    /// Failed to read configuration file.
    IoError(std::io::Error),
    /// Failed to parse YAML.
    YamlError(serde_yaml::Error),
    /// Invalid configuration value.
    InvalidConfig(String),
    /// Missing required field.
    MissingField(String),
}

/// A `ConfigError` with its message taken as a character sequence.
pub enum ConfigFailure {
    Io,
    Yaml,
    InvalidConfig(Seq<char>),
    MissingField(Seq<char>),
}

impl View for ConfigError {
    type V = ConfigFailure;

    open spec fn view(&self) -> ConfigFailure {
        match self {
            ConfigError::IoError(_) => ConfigFailure::Io,
            ConfigError::YamlError(_) => ConfigFailure::Yaml,
            ConfigError::InvalidConfig(m) => ConfigFailure::InvalidConfig(m@),
            ConfigError::MissingField(m) => ConfigFailure::MissingField(m@),
        }
    }
}

/// Storage configuration.
#[derive(Debug, Clone)]
pub enum StorageConfig {
    /// In-memory storage (default, non-persistent).
    Memory,
    /// SQLite storage.
    Sqlite {
        /// Path to the database file.
        path: String,
    },
}

impl Default for StorageConfig {
    fn default() -> (r: StorageConfig)
        ensures
            r is Memory,
    {
        StorageConfig::Memory
    }
}

/// Retry policy configuration.
#[derive(Debug, Clone)]
pub struct RetryConfig {
    /// Maximum number of retry attempts.
    pub max_attempts: u32,
    /// Delay between retries in seconds.
    pub delay_secs: u64,
    /// Retry condition.
    pub condition: RetryConditionConfig,
}

/// Retry condition configuration.
#[derive(Debug, Clone, Copy, PartialEq, Eq, Structural)]
pub enum RetryConditionConfig {
    /// Always retry on failure.
    Always,
    /// Only retry on transient errors.
    TransientOnly,
    /// Never retry.
    Never,
}

impl Default for RetryConditionConfig {
    fn default() -> (r: RetryConditionConfig)
        ensures
            r == RetryConditionConfig::Always,
    {
        RetryConditionConfig::Always
    }
}

/// Global configuration (`petit.yaml`).
#[derive(Debug, Clone)]
pub struct GlobalConfig {
    /// Default timezone for schedules.
    pub default_timezone: Option<String>,
    /// Default retry policy for tasks.
    pub default_retry: Option<RetryConfig>,
    /// Maximum concurrent jobs.
    pub max_concurrent_jobs: Option<usize>,
    /// Maximum concurrent tasks per job.
    pub max_concurrent_tasks: Option<usize>,
    /// Storage configuration.
    pub storage: Option<StorageConfig>,
    /// Global environment variables.
    pub environment: Option<HashMap<String, String>>,
}

impl Default for GlobalConfig {
    fn default() -> (r: GlobalConfig)
        ensures
            r.default_timezone is None,
            r.default_retry is None,
            r.max_concurrent_jobs is None,
            r.max_concurrent_tasks is None,
            r.storage is None,
            r.environment is None,
    {
        GlobalConfig {
            default_timezone: None,
            default_retry: None,
            max_concurrent_jobs: None,
            max_concurrent_tasks: None,
            storage: None,
            environment: None,
        }
    }
}

/// Schedule configuration.
#[derive(Debug, Clone)]
pub enum ScheduleConfig {
    /// Simple cron expression string.
    Simple(String),
    /// Detailed schedule with timezone.
    Detailed {
        /// Cron expression or shortcut.
        cron: String,
        /// Timezone for the schedule.
        timezone: Option<String>,
    },
}

impl ScheduleConfig {
    /// The cron expression, as a specification value.
    pub open spec fn cron_text(&self) -> Seq<char> {
        match self {
            ScheduleConfig::Simple(s) => s@,
            ScheduleConfig::Detailed { cron, .. } => cron@,
        }
    }

    /// The timezone, if one is given, as a specification value.
    pub open spec fn timezone_text(&self) -> Option<Seq<char>> {
        match self {
            ScheduleConfig::Simple(_) => None,
            ScheduleConfig::Detailed { timezone, .. } => match timezone {
                Some(t) => Some(t@),
                None => None,
            },
        }
    }

    /// Get the cron expression.
    pub fn cron(&self) -> (r: &str)
        ensures
            r@ == self.cron_text(),
    {
        match self {
            ScheduleConfig::Simple(s) => s.as_str(),
            ScheduleConfig::Detailed { cron, .. } => cron.as_str(),
        }
    }

    /// Get the timezone, if specified.
    pub fn timezone(&self) -> (r: Option<&str>)
        ensures
            match self.timezone_text() {
                Some(t) => r matches Some(x) && x@ == t,
                None => r is None,
            },
    {
        match self {
            ScheduleConfig::Simple(_) => None,
            ScheduleConfig::Detailed { timezone, .. } => match timezone {
                Some(t) => Some(t.as_str()),
                None => None,
            },
        }
    }
}

/// Task type configuration.
#[derive(Debug, Clone)]
pub enum TaskTypeConfig {
    /// Shell command task.
    Command {
        /// The command to run.
        command: String,
        /// Command arguments.
        args: Vec<String>,
        /// Working directory.
        working_dir: Option<String>,
        /// Timeout in seconds.
        timeout_secs: Option<u64>,
    },
    /// Python script task.
    Python {
        /// Python script path or inline code.
        script: String,
        /// Whether script is inline code vs file path.
        inline: bool,
    },
    /// Custom task type (for extensibility).
    Custom {
        /// Custom task handler name.
        handler: String,
        /// Custom configuration.
        config: HashMap<String, serde_yaml::Value>,
    },
}

/// Task execution condition.
#[derive(Debug, Clone, Copy, PartialEq, Eq, Structural)]
pub enum TaskConditionConfig {
    /// Run only if all upstream tasks succeeded (default).
    AllSuccess,
    /// Run only if any upstream task failed.
    OnFailure,
    /// Run regardless of upstream status.
    AllDone,
}

/// Task configuration.
#[derive(Debug, Clone)]
pub struct TaskConfig {
    /// Task identifier (unique within job).
    pub id: String,
    /// Human-readable name.
    pub name: Option<String>,
    /// Task type and configuration.
    pub task_type: TaskTypeConfig,
    /// Dependencies on other tasks in this job.
    pub depends_on: Vec<String>,
    /// The task's retry policy.
    pub retry: Option<RetryConfig>,
    /// The task's environment variables.
    pub environment: HashMap<String, String>,
    /// Execution condition.
    pub condition: Option<TaskConditionConfig>,
}

/// Job dependency condition configuration.
#[derive(Debug, Clone, Copy, PartialEq, Eq, Structural)]
pub enum JobDependencyConditionConfig {
    /// Last run must have succeeded.
    LastSuccess,
    /// Must have completed (success or failure).
    LastComplete,
    /// Must have succeeded within time window.
    WithinWindow {
        /// Time window in seconds.
        seconds: u64,
    },
}

/// Cross-job dependency configuration.
#[derive(Debug, Clone)]
pub enum JobDependencyConfig {
    /// Simple dependency (job ID only, implies LastSuccess).
    Simple(String),
    /// Detailed dependency with condition.
    Detailed {
        /// Job ID to depend on.
        job: String,
        /// Dependency condition.
        condition: JobDependencyConditionConfig,
    },
}

impl JobDependencyConfig {
    /// Get the job ID.
    pub fn job_id(&self) -> (r: &str)
        ensures
            r@ == match self {
                JobDependencyConfig::Simple(id) => id@,
                JobDependencyConfig::Detailed { job, .. } => job@,
            },
    {
        match self {
            JobDependencyConfig::Simple(id) => id.as_str(),
            JobDependencyConfig::Detailed { job, .. } => job.as_str(),
        }
    }
}

/// Job configuration from YAML.
#[derive(Debug, Clone)]
pub struct JobConfig {
    /// Job identifier.
    pub id: String,
    /// Human-readable name.
    pub name: String,
    /// Optional description.
    pub description: Option<String>,
    /// Schedule expression (cron or shortcut).
    pub schedule: Option<ScheduleConfig>,
    /// Task definitions.
    pub tasks: Vec<TaskConfig>,
    /// Cross-job dependencies.
    pub depends_on: Vec<JobDependencyConfig>,
    /// Job-level configuration values.
    pub config: HashMap<String, serde_yaml::Value>,
    /// Maximum concurrent runs of this job.
    pub max_concurrency: Option<usize>,
    /// Whether the job is enabled.
    pub enabled: bool,
}

/// The value `enabled` takes when a job configuration leaves it out.
pub fn default_true() -> (r: bool)
    ensures
        r,
{
    true
}

/// The ids of `tasks`, in order.
pub open spec fn task_ids(tasks: Seq<TaskConfig>) -> Seq<Seq<char>> {
    tasks.map_values(|t: TaskConfig| t.id@)
}

/// The id at position `j` already occurs before it.
pub open spec fn repeats_at(ids: Seq<Seq<char>>, j: int) -> bool {
    0 <= j < ids.len() && exists|i: int| 0 <= i < j && ids[i] == ids[j]
}

/// Position `j` holds the first id that repeats an earlier one.
pub open spec fn first_repeat(ids: Seq<Seq<char>>, j: int) -> bool {
    repeats_at(ids, j) && forall|k: int| 0 <= k < j ==> !repeats_at(ids, k)
}

/// Dependency `d` of task `t` names no task of `tasks`.
pub open spec fn unknown_dependency(tasks: Seq<TaskConfig>, t: int, d: int) -> bool {
    &&& 0 <= t < tasks.len()
    &&& 0 <= d < tasks[t].depends_on@.len()
    &&& !task_ids(tasks).contains(tasks[t].depends_on@[d]@)
}

/// Dependency `d` of task `t` is the first unknown one, tasks taken in
/// order and the dependencies of each in order.
pub open spec fn first_unknown_dependency(tasks: Seq<TaskConfig>, t: int, d: int) -> bool {
    &&& unknown_dependency(tasks, t, d)
    &&& forall|t2: int, d2: int| #[trigger] unknown_dependency(tasks, t2, d2) ==> (t < t2 || (t == t2
        && d <= d2))
}

/// What is wrong with a job configuration, checked in this order: an empty
/// id, an empty name, no task, a `max_concurrency` of zero, a task id that
/// occurs twice (the first repeat), a dependency on an unknown task (the
/// first one).
pub open spec fn job_config_error(c: JobConfig) -> Option<ConfigFailure> {
    let ids = task_ids(c.tasks@);
    if c.id@.len() == 0 {
        Some(ConfigFailure::MissingField("id"@))
    } else if c.name@.len() == 0 {
        Some(ConfigFailure::MissingField("name"@))
    } else if c.tasks@.len() == 0 {
        Some(ConfigFailure::InvalidConfig("job must have at least one task"@))
    } else if c.max_concurrency == Some(0usize) {
        Some(ConfigFailure::InvalidConfig("max_concurrency cannot be zero"@))
    } else if exists|j: int| repeats_at(ids, j) {
        let j = choose|j: int| first_repeat(ids, j);
        Some(ConfigFailure::InvalidConfig("duplicate task id: "@ + ids[j]))
    } else if exists|t: int, d: int| unknown_dependency(c.tasks@, t, d) {
        let (t, d) = choose|t: int, d: int| first_unknown_dependency(c.tasks@, t, d);
        Some(
            ConfigFailure::InvalidConfig(
                "task '"@ + ids[t] + "' depends on unknown task '"@ + c.tasks@[t].depends_on@[d]@
                    + "'"@,
            ),
        )
    } else {
        None
    }
}

/// What passing validation guarantees of a job: it has an id, a name and at
/// least one task, its `max_concurrency` is not zero, no two tasks share an
/// id, and every dependency of a task names a task of the job.
pub proof fn lemma_valid_job_config(c: JobConfig)
    requires
        job_config_error(c) is None,
    ensures
        c.id@.len() > 0,
        c.name@.len() > 0,
        c.tasks@.len() > 0,
        c.max_concurrency != Some(0usize),
        forall|i: int, j: int|
            0 <= i < j < c.tasks@.len() ==> c.tasks@[i].id@ != c.tasks@[j].id@,
        forall|t: int, d: int|
            0 <= t < c.tasks@.len() && 0 <= d < c.tasks@[t].depends_on@.len() ==> task_ids(
                c.tasks@,
            ).contains(#[trigger] c.tasks@[t].depends_on@[d]@),
{
    let ids = task_ids(c.tasks@);
    assert forall|i: int, j: int| 0 <= i < j < c.tasks@.len() implies c.tasks@[i].id@
        != c.tasks@[j].id@ by {
        if c.tasks@[i].id@ == c.tasks@[j].id@ {
            assert(ids[i] == ids[j]);
            assert(repeats_at(ids, j));
        }
    }
    assert forall|t: int, d: int|
        0 <= t < c.tasks@.len() && 0 <= d < c.tasks@[t].depends_on@.len() implies task_ids(
        c.tasks@,
    ).contains(#[trigger] c.tasks@[t].depends_on@[d]@) by {
        if !ids.contains(c.tasks@[t].depends_on@[d]@) {
            assert(unknown_dependency(c.tasks@, t, d));
        }
    }
}

/// Validation refuses nothing else: a job with an id, a name and at least
/// one task, with no `max_concurrency` or one of at least 1, whose tasks have
/// pairwise distinct ids and whose every dependency names one of its tasks,
/// passes.
pub proof fn lemma_sound_job_config_accepted(c: JobConfig)
    requires
        c.id@.len() > 0,
        c.name@.len() > 0,
        c.tasks@.len() > 0,
        c.max_concurrency matches Some(n) ==> n >= 1,
        forall|i: int, j: int|
            0 <= i < j < c.tasks@.len() ==> c.tasks@[i].id@ != c.tasks@[j].id@,
        forall|t: int, d: int|
            0 <= t < c.tasks@.len() && 0 <= d < c.tasks@[t].depends_on@.len() ==> exists|k: int|
                0 <= k < c.tasks@.len() && c.tasks@[k].id@ == #[trigger] c.tasks@[t].depends_on@[d]@,
    ensures
        job_config_error(c) is None,
{
    let ids = task_ids(c.tasks@);
    assert forall|j: int| !repeats_at(ids, j) by {
        if repeats_at(ids, j) {
            let i = choose|i: int| 0 <= i < j && ids[i] == ids[j];
            assert(c.tasks@[i].id@ == c.tasks@[j].id@);
        }
    }
    assert forall|t: int, d: int| !unknown_dependency(c.tasks@, t, d) by {
        if 0 <= t < c.tasks@.len() && 0 <= d < c.tasks@[t].depends_on@.len() {
            let dep = c.tasks@[t].depends_on@[d]@;
            let k = choose|k: int| 0 <= k < c.tasks@.len() && c.tasks@[k].id@ == dep;
            assert(ids[k] == dep);
        }
    }
}

/// Each error validation reports is justified by the job, and the checks
/// come in order: a missing id, then a missing name, then no task, then a
/// `max_concurrency` of zero, then a task id given twice (the error names
/// it), then a dependency on an unknown task (the error names the task and
/// the dependency).
pub proof fn lemma_job_config_error_explained(c: JobConfig)
    ensures
        job_config_error(c) matches Some(f) ==> {
            ||| f == ConfigFailure::MissingField("id"@) && c.id@.len() == 0
            ||| f == ConfigFailure::MissingField("name"@) && c.id@.len() > 0 && c.name@.len() == 0
            ||| f == ConfigFailure::InvalidConfig("job must have at least one task"@) && c.id@.len()
                > 0 && c.name@.len() > 0 && c.tasks@.len() == 0
            ||| f == ConfigFailure::InvalidConfig("max_concurrency cannot be zero"@) && c.id@.len()
                > 0 && c.name@.len() > 0 && c.tasks@.len() > 0 && c.max_concurrency == Some(0usize)
            ||| c.id@.len() > 0 && c.name@.len() > 0 && c.tasks@.len() > 0 && c.max_concurrency
                != Some(0usize) && exists|i: int, j: int|
                0 <= i < j < c.tasks@.len() && c.tasks@[i].id@ == c.tasks@[j].id@ && f
                    == ConfigFailure::InvalidConfig("duplicate task id: "@ + c.tasks@[j].id@)
            ||| c.id@.len() > 0 && c.name@.len() > 0 && c.tasks@.len() > 0 && c.max_concurrency
                != Some(0usize) && exists|t: int, d: int|
                0 <= t < c.tasks@.len() && 0 <= d < c.tasks@[t].depends_on@.len() && (forall|k: int|
                    0 <= k < c.tasks@.len() ==> c.tasks@[k].id@ != c.tasks@[t].depends_on@[d]@)
                    && f == ConfigFailure::InvalidConfig(
                    "task '"@ + c.tasks@[t].id@ + "' depends on unknown task '"@
                        + c.tasks@[t].depends_on@[d]@ + "'"@,
                )
        },
{
    let ids = task_ids(c.tasks@);
    if c.id@.len() > 0 && c.name@.len() > 0 && c.tasks@.len() > 0 && c.max_concurrency != Some(
        0usize,
    ) {
        if exists|j: int| repeats_at(ids, j) {
            let w = choose|j: int| repeats_at(ids, j);
            first_repeat_exists(ids, w);
            let j = choose|j: int| first_repeat(ids, j);
            let i = choose|i: int| 0 <= i < j && ids[i] == ids[j];
            assert(c.tasks@[i].id@ == c.tasks@[j].id@);
        } else if exists|t: int, d: int| unknown_dependency(c.tasks@, t, d) {
            let (t0, d0) = choose|t: int, d: int| unknown_dependency(c.tasks@, t, d);
            first_unknown_exists(c.tasks@, t0, d0);
            let (t, d) = choose|t: int, d: int| first_unknown_dependency(c.tasks@, t, d);
            assert forall|k: int| 0 <= k < c.tasks@.len() implies c.tasks@[k].id@
                != c.tasks@[t].depends_on@[d]@ by {
                if c.tasks@[k].id@ == c.tasks@[t].depends_on@[d]@ {
                    assert(ids[k] == c.tasks@[k].id@);
                }
            }
            assert(ids[t] == c.tasks@[t].id@);
        }
    }
}

proof fn first_repeat_exists(ids: Seq<Seq<char>>, w: int)
    requires
        repeats_at(ids, w),
    ensures
        exists|j: int| first_repeat(ids, j),
    decreases w,
{
    if exists|k: int| 0 <= k < w && repeats_at(ids, k) {
        let k = choose|k: int| 0 <= k < w && repeats_at(ids, k);
        first_repeat_exists(ids, k);
    } else {
        assert(first_repeat(ids, w));
    }
}

proof fn first_unknown_exists(tasks: Seq<TaskConfig>, t: int, d: int)
    requires
        unknown_dependency(tasks, t, d),
    ensures
        exists|a: int, b: int| first_unknown_dependency(tasks, a, b),
    decreases t, d,
{
    if exists|t2: int, d2: int| unknown_dependency(tasks, t2, d2) && (t2 < t || (t2 == t && d2 < d)) {
        let (t2, d2) = choose|t2: int, d2: int|
            unknown_dependency(tasks, t2, d2) && (t2 < t || (t2 == t && d2 < d));
        first_unknown_exists(tasks, t2, d2);
    } else {
        assert forall|t2: int, d2: int| #[trigger] unknown_dependency(tasks, t2, d2) implies (t < t2
            || (t == t2 && d <= d2)) by {}
        assert(first_unknown_dependency(tasks, t, d));
    }
}

/// YAML configuration loader.
pub struct YamlLoader;

/// Whether some task of `tasks` has the id `id`.
fn has_task_id(tasks: &Vec<TaskConfig>, id: &String) -> (r: bool)
    ensures
        r == task_ids(tasks@).contains(id@),
{
    let mut i: usize = 0;
    while i < tasks.len()
        invariant
            i <= tasks@.len(),
            forall|k: int| 0 <= k < i ==> tasks@[k].id@ != id@,
        decreases tasks@.len() - i,
    {
        if tasks[i].id == *id {
            assert(task_ids(tasks@)[i as int] == id@);
            return true;
        }
        i = i + 1;
    }
    proof {
        if task_ids(tasks@).contains(id@) {
            let k = choose|k: int| 0 <= k < task_ids(tasks@).len() && task_ids(tasks@)[k] == id@;
            assert(tasks@[k].id@ == id@);
        }
    }
    false
}

/// The position of the first task id that repeats an earlier one.
fn find_repeat(tasks: &Vec<TaskConfig>) -> (r: Option<usize>)
    ensures
        match r {
            Some(j) => first_repeat(task_ids(tasks@), j as int),
            None => forall|j: int| !repeats_at(task_ids(tasks@), j),
        },
{
    let ghost ids = task_ids(tasks@);
    let mut j: usize = 0;
    while j < tasks.len()
        invariant
            ids == task_ids(tasks@),
            j <= tasks@.len(),
            forall|k: int| 0 <= k < j ==> !repeats_at(ids, k),
        decreases tasks@.len() - j,
    {
        let mut i: usize = 0;
        while i < j
            invariant
                ids == task_ids(tasks@),
                i <= j < tasks@.len(),
                forall|k: int| 0 <= k < j ==> !repeats_at(ids, k),
                forall|k: int| 0 <= k < i ==> ids[k] != ids[j as int],
            decreases j - i,
        {
            if tasks[i].id == tasks[j].id {
                assert(ids[i as int] == ids[j as int]);
                assert(repeats_at(ids, j as int));
                return Some(j);
            }
            i = i + 1;
        }
        assert(!repeats_at(ids, j as int));
        j = j + 1;
    }
    assert forall|k: int| !repeats_at(ids, k) by {
        if 0 <= k < ids.len() {
            assert(k < j);
        }
    }
    None
}

/// The first dependency, tasks and their dependencies taken in order, that
/// names no task.
fn find_unknown_dependency(tasks: &Vec<TaskConfig>) -> (r: Option<(usize, usize)>)
    ensures
        match r {
            Some((t, d)) => first_unknown_dependency(tasks@, t as int, d as int),
            None => forall|t: int, d: int| !unknown_dependency(tasks@, t, d),
        },
{
    let mut t: usize = 0;
    while t < tasks.len()
        invariant
            t <= tasks@.len(),
            forall|t2: int, d2: int| 0 <= t2 < t ==> !unknown_dependency(tasks@, t2, d2),
        decreases tasks@.len() - t,
    {
        let deps = &tasks[t].depends_on;
        let mut d: usize = 0;
        while d < deps.len()
            invariant
                t < tasks@.len(),
                deps@ == tasks@[t as int].depends_on@,
                d <= deps@.len(),
                forall|t2: int, d2: int| 0 <= t2 < t ==> !unknown_dependency(tasks@, t2, d2),
                forall|d2: int| 0 <= d2 < d ==> !unknown_dependency(tasks@, t as int, d2),
            decreases deps@.len() - d,
        {
            if !has_task_id(tasks, &deps[d]) {
                assert(unknown_dependency(tasks@, t as int, d as int));
                return Some((t, d));
            }
            d = d + 1;
        }
        t = t + 1;
    }
    None
}

/// The message for a task that depends on an unknown task.
fn unknown_dependency_message(task: &String, dep: &String) -> (r: String)
    ensures
        r@ == "task '"@ + task@ + "' depends on unknown task '"@ + dep@ + "'"@,
{
    let mut m = String::from_str("task '");
    m.append(task.as_str());
    m.append("' depends on unknown task '");
    m.append(dep.as_str());
    m.append("'");
    m
}

impl YamlLoader {
    /// Check a job configuration: it needs an id, a name, at least one task,
    /// no `max_concurrency` of zero, distinct task ids, and dependencies
    /// that name tasks of the job. The first violation found is reported.
    pub fn validate_job_config(config: &JobConfig) -> (r: Result<(), ConfigError>)
        ensures
            match job_config_error(*config) {
                None => r is Ok,
                Some(f) => r matches Err(e) && e@ == f,
            },
    {
        let ghost ids = task_ids(config.tasks@);
        if config.id.as_str().is_empty() {
            return Err(ConfigError::MissingField(String::from_str("id")));
        }
        if config.name.as_str().is_empty() {
            return Err(ConfigError::MissingField(String::from_str("name")));
        }
        if config.tasks.len() == 0 {
            return Err(
                ConfigError::InvalidConfig(String::from_str("job must have at least one task")),
            );
        }
        match config.max_concurrency {
            Some(n) => {
                if n == 0 {
                    return Err(
                        ConfigError::InvalidConfig(String::from_str("max_concurrency cannot be zero")),
                    );
                }
            },
            None => {},
        }
        match find_repeat(&config.tasks) {
            Some(j) => {
                proof {
                    let c = choose|c: int| first_repeat(ids, c);
                    assert(first_repeat(ids, c));
                    if c < j {
                        assert(!repeats_at(ids, c));
                    }
                    if j < c {
                        assert(!repeats_at(ids, j as int));
                    }
                    assert(ids[j as int] == config.tasks@[j as int].id@);
                }
                let mut m = String::from_str("duplicate task id: ");
                m.append(config.tasks[j].id.as_str());
                return Err(ConfigError::InvalidConfig(m));
            },
            None => {},
        }
        match find_unknown_dependency(&config.tasks) {
            Some((t, d)) => {
                proof {
                    let (ct, cd) = choose|ct: int, cd: int|
                        first_unknown_dependency(config.tasks@, ct, cd);
                    assert(first_unknown_dependency(config.tasks@, ct, cd));
                    assert(unknown_dependency(config.tasks@, t as int, d as int));
                    assert(ct == t && cd == d);
                    assert(ids[t as int] == config.tasks@[t as int].id@);
                }
                let m = unknown_dependency_message(
                    &config.tasks[t].id,
                    &config.tasks[t].depends_on[d],
                );
                return Err(ConfigError::InvalidConfig(m));
            },
            None => {},
        }
        Ok(())
    }

    /// The delay of a retry configuration, as a duration.
    pub fn retry_delay(config: &RetryConfig) -> (r: Duration)
        ensures
            r == secs_duration(config.delay_secs),
    {
        duration_from_secs(config.delay_secs)
    }
}

/// The retry condition that a configured condition stands for.
pub open spec fn retry_condition_of(c: RetryConditionConfig) -> RetryCondition {
    match c {
        RetryConditionConfig::Always => RetryCondition::Always,
        RetryConditionConfig::TransientOnly => RetryCondition::TransientOnly,
        RetryConditionConfig::Never => RetryCondition::Never,
    }
}

impl TryFrom<RetryConfig> for RetryPolicy {
    type Error = ConfigError;

    fn try_from(config: RetryConfig) -> (r: Result<RetryPolicy, ConfigError>) {
        let condition = match config.condition {
            RetryConditionConfig::Always => RetryCondition::Always,
            RetryConditionConfig::TransientOnly => RetryCondition::TransientOnly,
            RetryConditionConfig::Never => RetryCondition::Never,
        };
        Ok(
            RetryPolicy::fixed(config.max_attempts, duration_from_secs(config.delay_secs)).with_condition(
                condition,
            ),
        )
    }
}

impl vstd::std_specs::convert::TryFromSpecImpl<RetryConfig> for RetryPolicy {
    open spec fn obeys_try_from_spec() -> bool {
        true
    }

    open spec fn try_from_spec(v: RetryConfig) -> Result<RetryPolicy, ConfigError> {
        Ok(
            RetryPolicy {
                max_attempts: v.max_attempts,
                delay: secs_duration(v.delay_secs),
                retry_on: retry_condition_of(v.condition),
            },
        )
    }
}

impl TryFrom<ScheduleConfig> for Schedule {
    type Error = ConfigError;

    fn try_from(config: ScheduleConfig) -> (r: Result<Schedule, ConfigError>)
        ensures
            !expression_valid(config.cron_text()) ==> (r matches Err(e) && e@
                == ConfigFailure::InvalidConfig(
                "invalid schedule expression: "@ + config.cron_text(),
            )),
            expression_valid(config.cron_text()) ==> match config.timezone_text() {
                Some(tz) => if timezone_valid(tz) {
                    r matches Ok(s) && s.expression_text() == config.cron_text()
                        && s.timezone_text() == tz
                } else {
                    r matches Err(e) && e@ == ConfigFailure::InvalidConfig(
                        "invalid timezone: "@ + tz,
                    )
                },
                None => r matches Ok(s) && s.expression_text() == config.cron_text()
                    && s.timezone_text() == "UTC"@,
            },
    {
        match config {
            ScheduleConfig::Simple(cron) => match Schedule::new(cron) {
                Ok(s) => Ok(s),
                Err(e) => Err(ConfigError::InvalidConfig(e.message())),
            },
            ScheduleConfig::Detailed { cron, timezone } => {
                let r = match timezone {
                    Some(tz) => Schedule::with_timezone(cron, tz),
                    None => Schedule::new(cron),
                };
                match r {
                    Ok(s) => Ok(s),
                    Err(e) => Err(ConfigError::InvalidConfig(e.message())),
                }
            },
        }
    }
}

impl vstd::std_specs::convert::TryFromSpecImpl<ScheduleConfig> for Schedule {
    /// The outcome is stated on `try_from` itself: a schedule holds strings
    /// that a specification value cannot name.
    open spec fn obeys_try_from_spec() -> bool {
        false
    }

    open spec fn try_from_spec(v: ScheduleConfig) -> Result<Schedule, ConfigError> {
        arbitrary()
    }
}

/// The task condition that a configured condition stands for.
pub open spec fn task_condition_of(c: TaskConditionConfig) -> TaskCondition {
    match c {
        TaskConditionConfig::AllSuccess => TaskCondition::AllSuccess,
        TaskConditionConfig::OnFailure => TaskCondition::OnFailure,
        TaskConditionConfig::AllDone => TaskCondition::AllDone,
    }
}

impl From<TaskConditionConfig> for TaskCondition {
    fn from(config: TaskConditionConfig) -> (r: TaskCondition) {
        match config {
            TaskConditionConfig::AllSuccess => TaskCondition::AllSuccess,
            TaskConditionConfig::OnFailure => TaskCondition::OnFailure,
            TaskConditionConfig::AllDone => TaskCondition::AllDone,
        }
    }
}

impl vstd::std_specs::convert::FromSpecImpl<TaskConditionConfig> for TaskCondition {
    open spec fn obeys_from_spec() -> bool {
        true
    }

    open spec fn from_spec(v: TaskConditionConfig) -> TaskCondition {
        task_condition_of(v)
    }
}

/// The dependency condition that a configured condition stands for.
pub open spec fn dependency_condition_of(c: JobDependencyConditionConfig) -> DependencyCondition {
    match c {
        JobDependencyConditionConfig::LastSuccess => DependencyCondition::LastSuccess,
        JobDependencyConditionConfig::LastComplete => DependencyCondition::LastComplete,
        JobDependencyConditionConfig::WithinWindow { seconds } => DependencyCondition::WithinWindow(
            secs_duration(seconds),
        ),
    }
}

impl TryFrom<JobDependencyConditionConfig> for DependencyCondition {
    type Error = ConfigError;

    fn try_from(config: JobDependencyConditionConfig) -> (r: Result<DependencyCondition, ConfigError>) {
        match config {
            JobDependencyConditionConfig::LastSuccess => Ok(DependencyCondition::LastSuccess),
            JobDependencyConditionConfig::LastComplete => Ok(DependencyCondition::LastComplete),
            JobDependencyConditionConfig::WithinWindow { seconds } => Ok(
                DependencyCondition::WithinWindow(duration_from_secs(seconds)),
            ),
        }
    }
}

impl vstd::std_specs::convert::TryFromSpecImpl<JobDependencyConditionConfig> for DependencyCondition {
    open spec fn obeys_try_from_spec() -> bool {
        true
    }

    open spec fn try_from_spec(v: JobDependencyConditionConfig) -> Result<
        DependencyCondition,
        ConfigError,
    > {
        Ok(dependency_condition_of(v))
    }
}

} // verus!
