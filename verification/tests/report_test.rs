use cli_table::format::Justify;
use cli_table::{Cell, Style, Table};
use mistralrs_bench::bench::{BenchResult, TestName, Usage};
use mistralrs_bench::report::{usage_table, Device, ReportLine};

/// The text without terminal escape sequences.
fn plain(text: &str) -> String {
    let mut out = String::new();
    let mut escaped = false;
    for c in text.chars() {
        if c == '\u{1b}' {
            escaped = true;
        } else if escaped {
            escaped = c != 'm';
        } else {
            out.push(c);
        }
    }
    out
}

fn lines() -> Vec<ReportLine> {
    vec![
        ReportLine {
            test_name: TestName::Gen(128),
            tok_s: "10.000±0.500".to_string(),
            ms_tok: "100.000±5.000".to_string(),
            concurrency: 4,
            throughput: "40".to_string(),
        },
        ReportLine {
            test_name: TestName::Prompt(512),
            tok_s: "250.000±1.250".to_string(),
            ms_tok: "4.000±0.020".to_string(),
            concurrency: 4,
            throughput: "1000".to_string(),
        },
    ]
}

#[test]
fn table_is_laid_out() {
    let expected = [
        "+------------+---------+--------+---------------+---------------+-------------+--------------+",
        "| model      | backend | test   | t/s           | ms/t          | concurrency | throughput/s |",
        "+------------+---------+--------+---------------+---------------+-------------+--------------+",
        "| demo/model | CUDA    | tg 128 |  10.000±0.500 | 100.000±5.000 |           4 |           40 |",
        "+------------+---------+--------+---------------+---------------+-------------+--------------+",
        "| demo/model | CUDA    | pp 512 | 250.000±1.250 |   4.000±0.020 |           4 |         1000 |",
        "+------------+---------+--------+---------------+---------------+-------------+--------------+",
    ]
    .join("\n");
    let table = usage_table("demo/model", Device::Cuda, &lines());
    assert_eq!(plain(&table.display().unwrap().to_string()).trim_end(), expected);
}

#[test]
fn table_is_styled() {
    let rows = vec![
        vec![
            "demo/model".cell(),
            "CUDA".cell(),
            "tg 128".cell(),
            "10.000±0.500".cell().justify(Justify::Right),
            "100.000±5.000".cell().justify(Justify::Right),
            4usize.cell().justify(Justify::Right),
            40f32.cell().justify(Justify::Right),
        ],
        vec![
            "demo/model".cell(),
            "CUDA".cell(),
            "pp 512".cell(),
            "250.000±1.250".cell().justify(Justify::Right),
            "4.000±0.020".cell().justify(Justify::Right),
            4usize.cell().justify(Justify::Right),
            1000f32.cell().justify(Justify::Right),
        ],
    ];
    let expected = rows
        .table()
        .title(vec![
            "model".cell().bold(true),
            "backend".cell().bold(true),
            "test".cell().bold(true),
            "t/s".cell().bold(true),
            "ms/t".cell().bold(true),
            "concurrency".cell().bold(true),
            "throughput/s".cell().bold(true),
        ])
        .bold(true);
    let table = usage_table("demo/model", Device::Cuda, &lines());
    assert_eq!(
        table.display().unwrap().to_string(),
        expected.display().unwrap().to_string()
    );
    assert!(table.display().unwrap().to_string().contains("\u{1b}[1m"));
}

#[test]
fn empty_table_has_only_headings() {
    let table = usage_table("m", Device::Cpu, &Vec::new());
    let text = plain(&table.display().unwrap().to_string());
    assert_eq!(
        text.lines().nth(1).unwrap(),
        "| model | backend | test | t/s | ms/t | concurrency | throughput/s |"
    );
    assert_eq!(text.lines().count(), 3);
}

#[test]
fn a_cell_splits_at_line_feeds() {
    let table = usage_table("one\r\ntwo\n", Device::Cpu, &lines());
    let text = plain(&table.display().unwrap().to_string());
    let rows = text.lines().collect::<Vec<_>>();
    assert!(rows[3].starts_with("| one   | CPU     | tg 128 |"));
    assert!(rows[4].starts_with("| two   |         |        |"));
    assert!(rows[5].starts_with("+-------+"));
}

#[test]
fn backends_are_named() {
    assert_eq!(Device::Cpu.backend(), "CPU");
    assert_eq!(Device::Cuda.backend(), "CUDA");
    assert_eq!(Device::Metal.backend(), "Metal");
}

#[test]
fn tests_are_labelled() {
    assert_eq!(TestName::Prompt(512).label(), "pp 512");
    assert_eq!(TestName::Gen(0).label(), "tg 0");
    assert_ne!(TestName::Prompt(7).label(), TestName::Gen(7).label());
}

#[test]
fn rates_belong_to_the_test() {
    let usages = |test_name| BenchResult {
        usages: vec![
            Usage {
                avg_prompt_tok_per_sec: 1.5f32,
                avg_compl_tok_per_sec: 2.5f32,
            },
            Usage {
                avg_prompt_tok_per_sec: 3.5f32,
                avg_compl_tok_per_sec: 4.5f32,
            },
        ],
        concurrency: 2,
        test_name,
    };
    assert_eq!(usages(TestName::Prompt(8)).rates(), vec![1.5, 3.5]);
    assert_eq!(usages(TestName::Gen(8)).rates(), vec![2.5, 4.5]);
}
