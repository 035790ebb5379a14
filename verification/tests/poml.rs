use petit::json::{JsonNumber, JsonValue};
use petit::parsers::poml::{PomlError, PomlMetadata};
use petit::parsers::PomlParser;

fn read_frontmatter(text: String) -> Result<PomlMetadata, PomlError> {
    let value: serde_yaml::Value =
        serde_yaml::from_str(&text).map_err(|e| PomlError::InvalidFrontmatter(e.to_string()))?;
    let id = value
        .get("id")
        .and_then(|v| v.as_str())
        .ok_or_else(|| PomlError::InvalidFrontmatter("missing field `id`".to_string()))?
        .to_string();
    Ok(PomlMetadata {
        id,
        schedule: value.get("schedule").and_then(|v| v.as_str()).map(|s| s.to_string()),
        max_concurrency: value.get("max_concurrency").and_then(|v| v.as_u64()).map(|n| n as usize),
        enabled: value.get("enabled").and_then(|v| v.as_bool()).unwrap_or(true),
        depends_on: Vec::new(),
    })
}

fn config_value<'a>(config: &'a [(String, JsonValue)], key: &str) -> Option<&'a JsonValue> {
    config.iter().find(|(k, _)| k == key).map(|(_, v)| v)
}

#[test]
fn test_parse_simple_poml() {
    let poml = r#"---
id: test_job
schedule: "0 * * * *"
---

# Test Job

A simple test job.

## Say Hello

- **type**: command
- **command**: echo
- **args**: ["Hello, World!"]
"#;

    let doc = PomlParser::parse(poml, read_frontmatter).unwrap();
    assert_eq!(doc.metadata.id, "test_job");
    assert_eq!(doc.name, "Test Job");
    assert_eq!(doc.tasks.len(), 1);
    assert_eq!(doc.tasks[0].id, "say_hello");
    assert_eq!(doc.tasks[0].command, Some("echo".to_string()));
}

#[test]
fn test_parse_with_dependencies() {
    let poml = r#"---
id: pipeline
---

# Pipeline

## Extract

- **type**: command
- **command**: echo
- **args**: ["extracting"]

## Transform

- **type**: command
- **command**: echo
- **args**: ["transforming"]
- **depends_on**: [Extract](#extract)
"#;

    let doc = PomlParser::parse(poml, read_frontmatter).unwrap();
    assert_eq!(doc.tasks.len(), 2);
    assert_eq!(doc.tasks[1].depends_on, vec!["extract"]);
}

#[test]
fn test_parse_with_config() {
    let poml = r#"---
id: test
---

# Test

## Configuration

- batch_size: 1000
- output_dir: /tmp/data

## Task

- **type**: command
- **command**: echo
"#;

    let doc = PomlParser::parse(poml, read_frontmatter).unwrap();
    assert_eq!(
        config_value(&doc.config, "batch_size").unwrap(),
        &JsonValue::Number(JsonNumber::PosInt(1000))
    );
}

#[test]
fn poml_reads_the_whole_documented_example() {
    let poml = r#"---
id: data_pipeline
schedule: "0 0 2 * * *"  # 2 AM daily
---

# Data Pipeline

A comprehensive ETL pipeline for processing daily data.

## Configuration

- batch_size: 1000
- output_dir: /tmp/data

## Extract

Extracts data from the source database.

- **type**: command
- **command**: echo
- **args**: ["Extracting data..."]
- **environment**:
  - STAGE: extract

## Transform

Transforms the extracted data.

- **type**: command
- **command**: echo
- **args**: ["Transforming data..."]
- **depends_on**: [Extract](#extract)
- **environment**:
  - STAGE: transform

## Load

Loads the transformed data to the destination.

- **type**: command
- **command**: echo
- **args**: ["Loading data..."]
- **depends_on**: [Transform](#transform)
- **condition**: all_success
"#;
    let doc = PomlParser::parse(poml, read_frontmatter).unwrap();
    assert_eq!(doc.metadata.id, "data_pipeline");
    assert_eq!(doc.metadata.schedule, Some("0 0 2 * * *".to_string()));
    assert!(doc.metadata.enabled);
    assert_eq!(doc.name, "Data Pipeline");
    assert_eq!(doc.description, "A comprehensive ETL pipeline for processing daily data.");
    assert_eq!(
        config_value(&doc.config, "output_dir").unwrap(),
        &JsonValue::String("/tmp/data".to_string())
    );
    let ids: Vec<&str> = doc.tasks.iter().map(|t| t.id.as_str()).collect();
    assert_eq!(ids, vec!["extract", "transform", "load"]);
    assert_eq!(doc.tasks[0].description, "Extracts data from the source database.");
    assert_eq!(doc.tasks[0].args, vec!["Extracting data..."]);
    assert_eq!(doc.tasks[0].environment, vec![("STAGE".to_string(), "extract".to_string())]);
    assert_eq!(doc.tasks[1].depends_on, vec!["extract"]);
    assert_eq!(doc.tasks[2].depends_on, vec!["transform"]);
    assert_eq!(doc.tasks[2].condition, Some("all_success".to_string()));
    assert_eq!(doc.tasks[2].task_type, "command");
}

#[test]
fn poml_reports_structural_errors() {
    assert!(matches!(
        PomlParser::parse("# No frontmatter", read_frontmatter),
        Err(PomlError::MissingField(f)) if f == "frontmatter"
    ));
    assert!(matches!(
        PomlParser::parse("---\nid: x\n# never closed", read_frontmatter),
        Err(PomlError::InvalidFrontmatter(m)) if m == "missing closing ---"
    ));
    assert!(matches!(
        PomlParser::parse("---\nid: x\n---\n\nJust text.\n", read_frontmatter),
        Err(PomlError::MissingField(f)) if f == "job name (H1 heading)"
    ));
    assert!(matches!(
        PomlParser::parse("---\nschedule: x\n---\n# Job\n", read_frontmatter),
        Err(PomlError::InvalidFrontmatter(_))
    ));
}

#[test]
fn poml_values_and_inline_dependencies() {
    let poml = r#"---
id: values
enabled: false
---

# Values

## Config

- count: -7
- ratio: 2.5
- flag: TRUE
- list: [1, 2]
- name: 'quoted'

### Second Step

Depends on: [First Step]
- **timeout**: 30
"#;
    let doc = PomlParser::parse(poml, read_frontmatter).unwrap();
    assert!(!doc.metadata.enabled);
    assert_eq!(config_value(&doc.config, "count").unwrap(), &JsonValue::Number(JsonNumber::NegInt(-7)));
    assert_eq!(
        config_value(&doc.config, "ratio").unwrap(),
        &JsonValue::Number(JsonNumber::Float("2.5".to_string()))
    );
    assert_eq!(config_value(&doc.config, "flag").unwrap(), &JsonValue::Bool(true));
    assert_eq!(
        config_value(&doc.config, "list").unwrap(),
        &JsonValue::Array(vec![
            JsonValue::Number(JsonNumber::PosInt(1)),
            JsonValue::Number(JsonNumber::PosInt(2)),
        ])
    );
    assert_eq!(config_value(&doc.config, "name").unwrap(), &JsonValue::String("quoted".to_string()));
    assert_eq!(doc.tasks.len(), 1);
    assert_eq!(doc.tasks[0].id, "second_step");
    assert_eq!(doc.tasks[0].depends_on, vec!["first_step"]);
    assert_eq!(
        doc.tasks[0].extra,
        vec![("timeout".to_string(), JsonValue::Number(JsonNumber::PosInt(30)))]
    );
}

#[test]
fn poml_reads_documented_task_metadata() {
    let poml = r#"---
id: docs
---

# Docs

## Extract Data

Task description goes here.

- **type**: command
- **command**: `./extract.sh`
- **args**: `["--output", "/tmp/data"]`
- **environment**:
  - STAGE: extract
  - DEBUG: true
- **condition**: all_success
"#;
    let doc = PomlParser::parse(poml, read_frontmatter).unwrap();
    let task = &doc.tasks[0];
    assert_eq!(task.id, "extract_data");
    assert_eq!(task.name, "Extract Data");
    assert_eq!(task.description, "Task description goes here.");
    assert_eq!(task.command, Some("./extract.sh".to_string()));
    assert_eq!(task.args, vec!["--output", "/tmp/data"]);
    assert_eq!(
        task.environment,
        vec![
            ("STAGE".to_string(), "extract".to_string()),
            ("DEBUG".to_string(), "true".to_string()),
        ]
    );
    assert_eq!(task.condition, Some("all_success".to_string()));
}

#[test]
fn poml_keys_given_twice_keep_the_last_value() {
    let poml = r#"---
id: dup
---

# Dup

## Configuration

- size: 1
- name: a
- size: 2

## Step

- **retries**: 1
- **retries**: 3
- **environment**:
  - A: 1
  - A: 2
"#;
    let doc = PomlParser::parse(poml, read_frontmatter).unwrap();
    assert_eq!(
        doc.config,
        vec![
            ("size".to_string(), JsonValue::Number(JsonNumber::PosInt(2))),
            ("name".to_string(), JsonValue::String("a".to_string())),
        ]
    );
    assert_eq!(
        doc.tasks[0].extra,
        vec![("retries".to_string(), JsonValue::Number(JsonNumber::PosInt(3)))]
    );
    assert_eq!(doc.tasks[0].environment, vec![("A".to_string(), "2".to_string())]);
}

#[test]
fn poml_reads_a_json_configuration_block() {
    let poml = "---\nid: j\n---\n\n# J\n\n## Configuration\n\n```json\n{\n  \"batch_size\": 1000,\n  \"output_dir\": \"/tmp/data\"\n}\n```\n";
    let doc = PomlParser::parse(poml, read_frontmatter).unwrap();
    assert_eq!(
        doc.config,
        vec![
            ("batch_size".to_string(), JsonValue::Number(JsonNumber::PosInt(1000))),
            ("output_dir".to_string(), JsonValue::String("/tmp/data".to_string())),
        ]
    );
    let bad = "---\nid: j\n---\n\n# J\n\n## Config\n\n```\nnot json\n```\n";
    assert!(matches!(PomlParser::parse(bad, read_frontmatter), Err(PomlError::InvalidConfig(_))));
}

#[test]
fn poml_link_anchor_designates_a_multi_word_task() {
    let poml = "---\nid: etl\n---\n\n# ETL\n\n## Extract Data\n\n- **command**: echo\n\n## Transform Data\n\n- **command**: echo\n- **depends_on**: [Extract Data](#extract-data)\n";
    let doc = PomlParser::parse(poml, read_frontmatter).unwrap();
    assert_eq!(doc.tasks[0].id, "extract_data");
    assert_eq!(doc.tasks[1].depends_on, vec![doc.tasks[0].id.clone()]);
    let inline = "---\nid: etl\n---\n\n# ETL\n\n## Load It\n\nDepends on: [Extract Data](#Extract-Data)\n";
    let doc = PomlParser::parse(inline, read_frontmatter).unwrap();
    assert_eq!(doc.tasks[0].depends_on, vec!["extract_data"]);
}

#[test]
fn poml_args_that_are_not_an_array_stay_as_written() {
    let poml = "---\nid: a\n---\n\n# A\n\n## Run\n\n- **args**: `--verbose`\n";
    let doc = PomlParser::parse(poml, read_frontmatter).unwrap();
    assert_eq!(doc.tasks[0].args, vec!["`--verbose`"]);
}
