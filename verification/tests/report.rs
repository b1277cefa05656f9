use ci_report::github::{Conclusion, Job, WorkflowRun, WorkflowRuns};
use ci_report::html::{can_print, make_html, push_escaped};
use ci_report::report::{is_reportable, pr_id, report_job, tally, Fail, Fails, JobError};

fn run(id: u64, title: &str, conclusion: Option<Conclusion>) -> WorkflowRun {
    WorkflowRun {
        id,
        display_title: title.to_string(),
        run_number: id,
        status: "completed".to_string(),
        conclusion,
        check_suite_id: 1,
        url: String::new(),
        html_url: String::new(),
        run_attempt: 1,
    }
}

fn job(name: &str, conclusion: Conclusion) -> Job {
    Job {
        id: 77,
        html_url: "https://example.org/job/77".to_string(),
        conclusion,
        started_at: "2025-05-01T00:00:00Z".to_string(),
        name: name.to_string(),
        steps: Vec::new(),
    }
}

#[test]
fn runs_are_counted_by_how_they_ended() {
    let pages = vec![
        WorkflowRuns {
            workflow_runs: vec![
                run(1, "one", Some(Conclusion::Success)),
                run(2, "two", Some(Conclusion::Failure)),
                run(3, "three", None),
            ],
        },
        WorkflowRuns { workflow_runs: Vec::new() },
        WorkflowRuns {
            workflow_runs: vec![
                run(4, "four", Some(Conclusion::Cancelled)),
                run(5, "five", Some(Conclusion::Failure)),
                run(6, "six", Some(Conclusion::Skipped)),
                run(7, "seven", Some(Conclusion::Success)),
                run(8, "eight", Some(Conclusion::Success)),
            ],
        },
    ];
    let counted = tally(&pages);
    assert_eq!(counted.success, 3);
    assert_eq!(counted.fail, 2);
    assert_eq!(counted.cancelled, 1);
    let failures: Vec<(u64, &str)> =
        counted.failures.iter().map(|f| (f.id, f.title.as_str())).collect();
    assert_eq!(failures, vec![(2, "two"), (5, "five")]);
}

#[test]
fn no_pages_give_an_empty_tally() {
    let counted = tally(&[]);
    assert_eq!(counted.success, 0);
    assert_eq!(counted.fail, 0);
    assert_eq!(counted.cancelled, 0);
    assert!(counted.failures.is_empty());
}

#[test]
fn failed_jobs_are_reported_but_for_bors() {
    assert!(is_reportable(&job("x86_64-gnu", Conclusion::Failure)));
    assert!(!is_reportable(&job("x86_64-gnu", Conclusion::Success)));
    assert!(!is_reportable(&job("x86_64-gnu", Conclusion::Cancelled)));
    assert!(!is_reportable(&job("x86_64-gnu", Conclusion::Skipped)));
    assert!(!is_reportable(&job("bors build finished", Conclusion::Failure)));
    assert!(is_reportable(&job("bors build finished ", Conclusion::Failure)));
}

#[test]
fn the_pull_request_is_read_from_the_title() {
    assert_eq!(pr_id(b"Auto merge of #140123 - user:branch, r=someone"), Some(140123));
    assert_eq!(pr_id(b"Auto merge of #1 x"), Some(1));
    assert_eq!(pr_id(b"Auto merge of #+5 x"), Some(5));
}

#[test]
fn a_title_without_a_pull_request_gives_none() {
    assert_eq!(pr_id(b"Auto merge of #140123"), None);
    assert_eq!(pr_id(b"Auto merge of # 140123"), None);
    assert_eq!(pr_id(b"Auto merge of #abc def"), None);
    assert_eq!(pr_id(b"Rollup of 7 pull requests"), None);
    assert_eq!(pr_id(b"auto merge of #1 x"), None);
    assert_eq!(pr_id(b"Auto merge of #99999999999999999999 - x"), None);
    assert_eq!(pr_id(b""), None);
}

#[test]
fn a_failed_job_gives_an_entry() {
    let raw = b"2025-05-01T00:00:00Z ##[group]Run tests\n\
2025-05-01T00:00:01Z \x1b[31merror\x1b[0m: it broke\n\
2025-05-01T00:00:02Z Post job cleanup.\n";
    let fail = report_job("Auto merge of #12 - a:b, r=c", &job("dist", Conclusion::Failure), raw);
    let fail = match fail {
        Ok(fail) => fail,
        Err(e) => panic!("{e:?}"),
    };
    assert_eq!(fail.title, "Auto merge of #12 - a:b, r=c");
    assert_eq!(fail.time, "2025-05-01T00:00:00Z");
    assert_eq!(fail.job_name, "dist");
    assert_eq!(fail.job_id, 77);
    assert_eq!(fail.url, "https://example.org/job/77");
    assert_eq!(fail.short_log, b"##[group]Run tests\nerror: it broke\n".to_vec());
    assert_eq!(fail.error_line, Some(b"error: it broke".to_vec()));
    assert_eq!(fail.pr_id, 12);
}

#[test]
fn a_job_without_signals_gives_an_entry_without_error_line() {
    let fail = report_job("Auto merge of #3 - x", &job("dist", Conclusion::Failure), b"quiet\n");
    match fail {
        Ok(fail) => {
            assert_eq!(fail.short_log, b"quiet\n".to_vec());
            assert_eq!(fail.error_line, None);
        }
        Err(e) => panic!("{e:?}"),
    }
}

#[test]
fn a_job_gives_no_entry_without_text_or_pull_request() {
    let dist = job("dist", Conclusion::Failure);
    assert!(matches!(report_job("Auto merge of #3 - x", &dist, b"\xff\n"), Err(JobError::Encoding)));
    assert!(matches!(report_job("Rollup", &dist, b"fine\n"), Err(JobError::PrIdNotFound)));
    assert!(matches!(report_job("Rollup", &dist, b"\xff\n"), Err(JobError::Encoding)));
}

fn escape(text: &[u8]) -> Vec<u8> {
    let mut out = Vec::new();
    push_escaped(&mut out, text);
    out
}

#[test]
fn markup_is_escaped() {
    assert_eq!(escape(b"a < b && c > d"), b"a &lt; b &amp;&amp; c &gt; d".to_vec());
    assert_eq!(escape(b"&lt;"), b"&amp;lt;".to_vec());
    assert_eq!(escape(b"plain \"text\" 'here'"), b"plain \"text\" 'here'".to_vec());
    assert_eq!(escape(b""), Vec::<u8>::new());
    let text = "a<b & \u{e9}>c";
    let expected = text.replace("&", "&amp;").replace("<", "&lt;").replace(">", "&gt;");
    assert_eq!(escape(text.as_bytes()), expected.into_bytes());
}

fn sample() -> Fails {
    Fails {
        start: "2025-04-01".to_string(),
        end: "2025-05-01".to_string(),
        success: 5,
        fail: 2,
        cancelled: 1,
        fails: vec![
            Fail {
                title: "Auto merge of #12 - a:b, r=c".to_string(),
                time: "2025-04-02T03:04:05Z".to_string(),
                job_name: "dist-x86_64".to_string(),
                job_id: 4242,
                url: "https://example.org/job/4242".to_string(),
                short_log: b"error: expected `<`, found `&`\n".to_vec(),
                error_line: Some(b"error: expected `<`, found `&`".to_vec()),
                pr_id: 12,
            },
            Fail {
                title: "Auto merge of #13 - d:e, r=f".to_string(),
                time: "2025-04-03T03:04:05Z".to_string(),
                job_name: "test".to_string(),
                job_id: 4343,
                url: "https://example.org/job/4343".to_string(),
                short_log: b"quiet\n".to_vec(),
                error_line: None,
                pr_id: 13,
            },
        ],
    }
}

fn rendered(fails: &Fails) -> String {
    let total = fails.success + fails.fail;
    let percent = (fails.fail * 100) / total;
    let (start, end, fail, cancelled) = (&fails.start, &fails.end, fails.fail, fails.cancelled);
    let mut html = String::from(
        r#"<!DOCTYPE html>
        <html>
        <head>
            <meta charset="utf-8">
            <meta name="viewport" content="width=device-width, initial-scale=1">
            <title>Rust CI report</title>
            <link rel="stylesheet" href="styles.css">
        </head>
        "#,
    );
    html.push_str(&format!(
        "
        <h1>Rustc CI failures {start} to {end}</h1>
        <article id=\"stats\">
            <h2>Stats</h2>
            <p>fails: {fail}/{total} ({percent}%)</p>
            <p>cancelled: {cancelled}</p>
        </article>
        "
    ));
    let mut summary = String::from(
        "<section id = \"summary\">
        <h2>Summary</h2>
        <table><thead><tr><th>Time (UTC)</th><th>PR</th><th>Job Name</th><th>Short Log</th><th>Error Message</th></tr></thead>
        <tbody>
        ",
    );
    let mut logs = String::from("<section id = \"logs\"><h2>Short logs</h2>");
    for entry in &fails.fails {
        let (title, time, job_name, job_id, url, pr_id) =
            (&entry.title, &entry.time, &entry.job_name, entry.job_id, &entry.url, entry.pr_id);
        let short_log = String::from_utf8(entry.short_log.clone())
            .unwrap()
            .replace("&", "&amp;")
            .replace("<", "&lt;")
            .replace(">", "&gt;");
        let error_line = match &entry.error_line {
            Some(line) => String::from_utf8(line.clone()).unwrap(),
            None => String::new(),
        };
        summary.push_str(&format!(
            "
            <tr>
            <td>{time}</td>
            <td><a href=\"https://github.com/rust-lang/rust/pull/{pr_id}\">#{pr_id}</a></td>
            <td>{job_name}</td>
            <td><a href=\"#job-{job_id}\">log</a></td>
            <td class=\"error_msg\"><pre><code>{error_line}</code></pre></td>
            </tr>
            ",
        ));
        logs.push_str(&format!(
            "
            <article id=\"job-{job_id}\" class=\"failure\">
                <h3><a href=\"{url}\">{title}</a></h3>
                <p>{job_name}</p>
                <p>{time}</p>
                <pre class=\"log\"><code>{short_log}</code></pre>
            </article> 
            "
        ));
    }
    summary.push_str("</tbody></table></section>");
    logs.push_str("</section>");
    html.push_str(&summary);
    html.push_str(&logs);
    html.push_str(
        r#"
        <script src="script.js"></script>
        <style>
        .log { overflow: auto; border: 1px solid black; padding: 1em; background-color: #eee; }
        table { border-collapse: collapse; }
        thead tr { border-bottom: 2px solid white; }
        th { position: sticky; top: 0; background-color: white; }
        td { border: 2px solid white; padding: 5px; }
        tr:nth-child(even) { background: #eee; }
        .error_msg { font-size: 12px; }
        .error_msg pre { white-space: pre-wrap; word-wrap: break-word; }
        </style>
        </html>
        "#,
    );
    html
}

#[test]
fn the_page_of_a_report() {
    let fails = sample();
    assert!(can_print(&fails));
    let html = String::from_utf8(make_html(&fails)).unwrap();
    assert_eq!(html, rendered(&fails));
    assert!(html.contains("<p>fails: 2/7 (28%)</p>"));
    assert!(html.contains("<p>cancelled: 1</p>"));
    assert!(html.contains("<pre class=\"log\"><code>error: expected `&lt;`, found `&amp;`\n</code></pre>"));
    assert!(html.contains("<td class=\"error_msg\"><pre><code>error: expected `<`, found `&`</code></pre></td>"));
    assert!(html.contains("<td class=\"error_msg\"><pre><code></code></pre></td>"));
    assert!(html.contains("<a href=\"https://github.com/rust-lang/rust/pull/13\">#13</a>"));
}

#[test]
fn the_page_of_a_report_without_entries() {
    let mut fails = sample();
    fails.fails.clear();
    fails.fail = 0;
    let html = String::from_utf8(make_html(&fails)).unwrap();
    assert_eq!(html, rendered(&fails));
    assert!(html.contains("<p>fails: 0/5 (0%)</p>"));
    assert!(html.contains("<tbody>\n        </tbody></table></section><section id = \"logs\"><h2>Short logs</h2></section>"));
}

#[test]
fn statistics_that_cannot_be_printed() {
    let mut fails = sample();
    fails.success = 0;
    fails.fail = 0;
    assert!(!can_print(&fails));
    fails.fail = u64::MAX / 100 + 1;
    assert!(!can_print(&fails));
    fails.fail = u64::MAX / 100;
    assert!(can_print(&fails));
    fails.success = u64::MAX - fails.fail;
    assert!(can_print(&fails));
    fails.success = u64::MAX - fails.fail + 1;
    assert!(!can_print(&fails));
    fails.fail = 1;
    fails.success = 0;
    assert!(can_print(&fails));
    assert!(String::from_utf8(make_html(&fails)).unwrap().contains("<p>fails: 1/1 (100%)</p>"));
}
