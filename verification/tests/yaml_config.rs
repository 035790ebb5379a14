use petit::base::dag::TaskCondition;
use petit::base::job::DependencyCondition;
use petit::base::retry::{RetryCondition, RetryPolicy};
use petit::base::schedule::Schedule;
use petit::config::yaml::{
    ConfigError, JobConfig, JobDependencyConditionConfig, JobDependencyConfig, RetryConditionConfig,
    RetryConfig, ScheduleConfig, TaskConditionConfig, TaskConfig, TaskTypeConfig, YamlLoader,
};
use std::collections::HashMap;
use std::time::Duration;

fn command_task(id: &str, depends_on: &[&str]) -> TaskConfig {
    TaskConfig {
        id: id.to_string(),
        name: None,
        task_type: TaskTypeConfig::Command {
            command: "echo".to_string(),
            args: Vec::new(),
            working_dir: None,
            timeout_secs: None,
        },
        depends_on: depends_on.iter().map(|d| d.to_string()).collect(),
        retry: None,
        environment: HashMap::new(),
        condition: None,
    }
}

fn job(id: &str, name: &str, tasks: Vec<TaskConfig>, max_concurrency: Option<usize>) -> JobConfig {
    JobConfig {
        id: id.to_string(),
        name: name.to_string(),
        description: None,
        schedule: None,
        tasks,
        depends_on: Vec::new(),
        config: HashMap::new(),
        max_concurrency,
        enabled: true,
    }
}

// id: "", name: No ID Job, one command task `task1`.
#[test]
fn test_validation_error_missing_id() {
    let config = job("", "No ID Job", vec![command_task("task1", &[])], None);
    let result = YamlLoader::validate_job_config(&config);
    assert!(matches!(result, Err(ConfigError::MissingField(_))));
}

// id: no_tasks_job, name: No Tasks Job, tasks: [].
#[test]
fn test_validation_error_no_tasks() {
    let config = job("no_tasks_job", "No Tasks Job", Vec::new(), None);
    let result = YamlLoader::validate_job_config(&config);
    assert!(matches!(result, Err(ConfigError::InvalidConfig(_))));
}

// id: dup_task_job, two command tasks both with id `task1`.
#[test]
fn test_validation_error_duplicate_task_id() {
    let config = job(
        "dup_task_job",
        "Duplicate Task Job",
        vec![command_task("task1", &[]), command_task("task1", &[])],
        None,
    );
    let result = YamlLoader::validate_job_config(&config);
    assert!(matches!(result, Err(ConfigError::InvalidConfig(_))));
}

// id: invalid_dep_job, task `task1` depends on [nonexistent].
#[test]
fn test_validation_error_invalid_dependency() {
    let config = job(
        "invalid_dep_job",
        "Invalid Dependency Job",
        vec![command_task("task1", &["nonexistent"])],
        None,
    );
    let result = YamlLoader::validate_job_config(&config);
    assert!(matches!(result, Err(ConfigError::InvalidConfig(_))));
}

// id: zero_concurrency_job, max_concurrency: 0, one command task.
#[test]
fn test_validation_error_zero_max_concurrency() {
    let config = job(
        "zero_concurrency_job",
        "Zero Concurrency Job",
        vec![command_task("task1", &[])],
        Some(0),
    );
    let result = YamlLoader::validate_job_config(&config);
    assert!(matches!(result, Err(ConfigError::InvalidConfig(_))));
    if let Err(ConfigError::InvalidConfig(msg)) = result {
        assert!(msg.contains("max_concurrency cannot be zero"));
    }
}

#[test]
fn validation_messages_are_exact() {
    let no_name = job("j", "", vec![command_task("a", &[])], None);
    assert!(matches!(
        YamlLoader::validate_job_config(&no_name),
        Err(ConfigError::MissingField(f)) if f == "name"
    ));
    let no_id = job("", "", Vec::new(), Some(0));
    assert!(matches!(
        YamlLoader::validate_job_config(&no_id),
        Err(ConfigError::MissingField(f)) if f == "id"
    ));
    let empty = job("j", "J", Vec::new(), Some(0));
    assert!(matches!(
        YamlLoader::validate_job_config(&empty),
        Err(ConfigError::InvalidConfig(m)) if m == "job must have at least one task"
    ));
    let dup = job(
        "j",
        "J",
        vec![
            command_task("a", &["zzz"]),
            command_task("b", &[]),
            command_task("b", &[]),
            command_task("a", &[]),
        ],
        None,
    );
    assert!(matches!(
        YamlLoader::validate_job_config(&dup),
        Err(ConfigError::InvalidConfig(m)) if m == "duplicate task id: b"
    ));
    let unknown = job(
        "j",
        "J",
        vec![command_task("a", &[]), command_task("b", &["a", "x", "y"]), command_task("c", &["z"])],
        None,
    );
    assert!(matches!(
        YamlLoader::validate_job_config(&unknown),
        Err(ConfigError::InvalidConfig(m)) if m == "task 'b' depends on unknown task 'x'"
    ));
}

#[test]
fn validation_accepts_a_sound_job() {
    let config = job(
        "etl",
        "ETL",
        vec![command_task("extract", &[]), command_task("load", &["extract", "extract"])],
        Some(2),
    );
    assert!(YamlLoader::validate_job_config(&config).is_ok());
    let later_dependency = job(
        "j",
        "J",
        vec![command_task("first", &["second"]), command_task("second", &[])],
        None,
    );
    assert!(YamlLoader::validate_job_config(&later_dependency).is_ok());
}

#[test]
fn retry_delay_is_in_seconds() {
    let config = RetryConfig { max_attempts: 1, delay_secs: 90, condition: RetryConditionConfig::Never };
    assert_eq!(YamlLoader::retry_delay(&config), Duration::from_secs(90));
}

#[test]
fn schedule_and_dependency_accessors() {
    let simple = ScheduleConfig::Simple("@daily".to_string());
    assert_eq!(simple.cron(), "@daily");
    assert_eq!(simple.timezone(), None);
    let detailed = ScheduleConfig::Detailed {
        cron: "0 9 * * 1-5".to_string(),
        timezone: Some("Europe/London".to_string()),
    };
    assert_eq!(detailed.cron(), "0 9 * * 1-5");
    assert_eq!(detailed.timezone(), Some("Europe/London"));
    let dep = JobDependencyConfig::Detailed {
        job: "upstream_job_1".to_string(),
        condition: JobDependencyConditionConfig::LastComplete,
    };
    assert_eq!(dep.job_id(), "upstream_job_1");
    assert_eq!(JobDependencyConfig::Simple("up".to_string()).job_id(), "up");
    assert_eq!(RetryConditionConfig::default(), RetryConditionConfig::Always);
}

#[test]
fn test_retry_config_to_retry_policy_with_always_condition() {
    let config = RetryConfig {
        max_attempts: 3,
        delay_secs: 60,
        condition: RetryConditionConfig::Always,
    };

    let policy: RetryPolicy = config.try_into().unwrap();

    assert_eq!(policy.max_attempts, 3);
    assert_eq!(policy.delay, Duration::from_secs(60));
    assert_eq!(policy.retry_on, RetryCondition::Always);
}

#[test]
fn test_retry_config_to_retry_policy_with_transient_only() {
    let config = RetryConfig {
        max_attempts: 5,
        delay_secs: 30,
        condition: RetryConditionConfig::TransientOnly,
    };

    let policy: RetryPolicy = config.try_into().unwrap();

    assert_eq!(policy.max_attempts, 5);
    assert_eq!(policy.delay, Duration::from_secs(30));
    assert_eq!(policy.retry_on, RetryCondition::TransientOnly);
}

#[test]
fn test_retry_config_to_retry_policy_with_never() {
    let config = RetryConfig {
        max_attempts: 0,
        delay_secs: 0,
        condition: RetryConditionConfig::Never,
    };

    let policy: RetryPolicy = config.try_into().unwrap();

    assert_eq!(policy.max_attempts, 0);
    assert_eq!(policy.delay, Duration::from_secs(0));
    assert_eq!(policy.retry_on, RetryCondition::Never);
    assert!(!policy.is_enabled());
}

#[test]
fn test_schedule_config_simple_to_schedule() {
    let config = ScheduleConfig::Simple("@daily".to_string());

    let schedule: Schedule = config.try_into().unwrap();

    assert_eq!(schedule.expression(), "@daily");
    assert_eq!(schedule.timezone(), "UTC");
}

#[test]
fn test_schedule_config_simple_with_cron_to_schedule() {
    let config = ScheduleConfig::Simple("0 9 * * *".to_string());

    let schedule: Schedule = config.try_into().unwrap();

    assert_eq!(schedule.expression(), "0 9 * * *");
    assert_eq!(schedule.timezone(), "UTC");
}

#[test]
fn test_schedule_config_detailed_to_schedule() {
    let config = ScheduleConfig::Detailed {
        cron: "0 9 * * *".to_string(),
        timezone: Some("America/New_York".to_string()),
    };

    let schedule: Schedule = config.try_into().unwrap();

    assert_eq!(schedule.expression(), "0 9 * * *");
    assert_eq!(schedule.timezone(), "America/New_York");
}

#[test]
fn test_schedule_config_detailed_without_timezone_to_schedule() {
    let config = ScheduleConfig::Detailed {
        cron: "@hourly".to_string(),
        timezone: None,
    };

    let schedule: Schedule = config.try_into().unwrap();

    assert_eq!(schedule.expression(), "@hourly");
    assert_eq!(schedule.timezone(), "UTC");
}

#[test]
fn test_schedule_config_invalid_cron_returns_error() {
    let config = ScheduleConfig::Simple("invalid cron".to_string());

    let result: Result<Schedule, ConfigError> = config.try_into();

    assert!(result.is_err());
    assert!(matches!(result, Err(ConfigError::InvalidConfig(_))));
}

#[test]
fn test_schedule_config_invalid_timezone_returns_error() {
    let config = ScheduleConfig::Detailed {
        cron: "0 * * * *".to_string(),
        timezone: Some("Invalid/Timezone".to_string()),
    };

    let result: Result<Schedule, ConfigError> = config.try_into();

    assert!(result.is_err());
    assert!(matches!(result, Err(ConfigError::InvalidConfig(_))));
}

#[test]
fn schedule_errors_carry_their_messages() {
    let bad_cron: Result<Schedule, ConfigError> = ScheduleConfig::Simple("invalid cron".to_string()).try_into();
    assert!(matches!(
        bad_cron,
        Err(ConfigError::InvalidConfig(m)) if m == "invalid schedule expression: invalid cron"
    ));
    let bad_tz: Result<Schedule, ConfigError> = ScheduleConfig::Detailed {
        cron: "0 * * * *".to_string(),
        timezone: Some("Invalid/Timezone".to_string()),
    }
    .try_into();
    assert!(matches!(
        bad_tz,
        Err(ConfigError::InvalidConfig(m)) if m == "invalid timezone: Invalid/Timezone"
    ));
    let both_bad: Result<Schedule, ConfigError> = ScheduleConfig::Detailed {
        cron: "@often".to_string(),
        timezone: Some("Nowhere".to_string()),
    }
    .try_into();
    assert!(matches!(
        both_bad,
        Err(ConfigError::InvalidConfig(m)) if m == "invalid schedule expression: @often"
    ));
}

#[test]
fn test_task_condition_config_all_success_to_task_condition() {
    let config = TaskConditionConfig::AllSuccess;

    let condition: TaskCondition = config.into();

    assert_eq!(condition, TaskCondition::AllSuccess);
}

#[test]
fn test_task_condition_config_on_failure_to_task_condition() {
    let config = TaskConditionConfig::OnFailure;

    let condition: TaskCondition = config.into();

    assert_eq!(condition, TaskCondition::OnFailure);
}

#[test]
fn test_task_condition_config_all_done_to_task_condition() {
    let config = TaskConditionConfig::AllDone;

    let condition: TaskCondition = config.into();

    assert_eq!(condition, TaskCondition::AllDone);
}

#[test]
fn test_job_dependency_condition_config_last_success_to_dependency_condition() {
    let config = JobDependencyConditionConfig::LastSuccess;

    let condition: DependencyCondition = config.try_into().unwrap();

    assert_eq!(condition, DependencyCondition::LastSuccess);
}

#[test]
fn test_job_dependency_condition_config_last_complete_to_dependency_condition() {
    let config = JobDependencyConditionConfig::LastComplete;

    let condition: DependencyCondition = config.try_into().unwrap();

    assert_eq!(condition, DependencyCondition::LastComplete);
}

#[test]
fn test_job_dependency_condition_config_within_window_to_dependency_condition() {
    let config = JobDependencyConditionConfig::WithinWindow { seconds: 3600 };

    let condition: DependencyCondition = config.try_into().unwrap();

    assert_eq!(
        condition,
        DependencyCondition::WithinWindow(Duration::from_secs(3600))
    );
}

#[test]
fn test_conversion_roundtrip_retry_config() {
    let config = RetryConfig {
        max_attempts: 3,
        delay_secs: 45,
        condition: RetryConditionConfig::TransientOnly,
    };

    let policy: RetryPolicy = config.clone().try_into().unwrap();

    assert_eq!(policy.max_attempts, config.max_attempts);
    assert_eq!(policy.delay, Duration::from_secs(config.delay_secs));
    assert_eq!(policy.retry_on, RetryCondition::TransientOnly);
}

#[test]
fn test_conversion_schedule_with_interval() {
    let config = ScheduleConfig::Simple("@every 5m".to_string());

    let schedule: Schedule = config.try_into().unwrap();

    assert_eq!(schedule.expression(), "@every 5m");
}
