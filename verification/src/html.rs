//! The report as a page of HTML.

use crate::markers::bytes;
use crate::number::{decimal, push_decimal};
use crate::report::{Fail, Fails};
use vstd::prelude::*;
use vstd::utf8::encode_utf8;

verus! {

/// The head of the page.
pub const HEAD: &'static str = "<!DOCTYPE html>\n        <html>\n        <head>\n            <meta charset=\"utf-8\">\n            <meta name=\"viewport\" content=\"width=device-width, initial-scale=1\">\n            <title>Rust CI report</title>\n            <link rel=\"stylesheet\" href=\"styles.css\">\n        </head>\n        ";

/// What stands before the first day of the period.
pub const TITLE_OPEN: &'static str = "\n        <h1>Rustc CI failures ";

/// What stands between the two days of the period.
pub const TITLE_TO: &'static str = " to ";

/// What stands before the number of failed runs.
pub const STATS_OPEN: &'static str = "</h1>\n        <article id=\"stats\">\n            <h2>Stats</h2>\n            <p>fails: ";

/// What stands between the number of failed runs and the number of all runs.
pub const STATS_OF: &'static str = "/";

/// What stands before the share of failed runs.
pub const STATS_PERCENT: &'static str = " (";

/// What stands before the number of cancelled runs.
pub const STATS_CANCELLED: &'static str = "%)</p>\n            <p>cancelled: ";

/// The end of the statistics.
pub const STATS_CLOSE: &'static str = "</p>\n        </article>\n        ";

/// The head of the summary table.
pub const SUMMARY_OPEN: &'static str = "<section id = \"summary\">\n        <h2>Summary</h2>\n        <table><thead><tr><th>Time (UTC)</th><th>PR</th><th>Job Name</th><th>Short Log</th><th>Error Message</th></tr></thead>\n        <tbody>\n        ";

/// The end of the summary table.
pub const SUMMARY_CLOSE: &'static str = "</tbody></table></section>";

/// The head of the section of excerpts.
pub const LOGS_OPEN: &'static str = "<section id = \"logs\"><h2>Short logs</h2>";

/// The end of the section of excerpts.
pub const LOGS_CLOSE: &'static str = "</section>";

/// What stands before the time of a job in its row.
pub const ROW_OPEN: &'static str = "\n            <tr>\n            <td>";

/// What stands before the number of the pull request, in the link.
pub const ROW_PR: &'static str = "</td>\n            <td><a href=\"https://github.com/rust-lang/rust/pull/";

/// What stands before the number of the pull request, in the text.
pub const ROW_PR_TEXT: &'static str = "\">#";

/// What stands before the name of a job in its row.
pub const ROW_JOB: &'static str = "</a></td>\n            <td>";

/// What stands before the identifier of a job in its row.
pub const ROW_LOG: &'static str = "</td>\n            <td><a href=\"#job-";

/// What stands before the error line of a job.
pub const ROW_ERROR: &'static str = "\">log</a></td>\n            <td class=\"error_msg\"><pre><code>";

/// The end of a row.
pub const ROW_CLOSE: &'static str = "</code></pre></td>\n            </tr>\n            ";

/// What stands before the identifier of a job in its article.
pub const ARTICLE_OPEN: &'static str = "\n            <article id=\"job-";

/// What stands before the address of a job.
pub const ARTICLE_URL: &'static str = "\" class=\"failure\">\n                <h3><a href=\"";

/// What stands before the title of a run.
pub const ARTICLE_TITLE: &'static str = "\">";

/// What stands before the name of a job in its article.
pub const ARTICLE_JOB: &'static str = "</a></h3>\n                <p>";

/// What stands before the time of a job in its article.
pub const ARTICLE_TIME: &'static str = "</p>\n                <p>";

/// What stands before the excerpt of a job.
pub const ARTICLE_LOG: &'static str = "</p>\n                <pre class=\"log\"><code>";

/// The end of an article.
pub const ARTICLE_CLOSE: &'static str = "</code></pre>\n            </article> \n            ";

/// The script, the style sheet and the end of the page.
pub const FOOT: &'static str = "\n        <script src=\"script.js\"></script>\n        <style>\n        .log { overflow: auto; border: 1px solid black; padding: 1em; background-color: #eee; }\n        table { border-collapse: collapse; }\n        thead tr { border-bottom: 2px solid white; }\n        th { position: sticky; top: 0; background-color: white; }\n        td { border: 2px solid white; padding: 5px; }\n        tr:nth-child(even) { background: #eee; }\n        .error_msg { font-size: 12px; }\n        .error_msg pre { white-space: pre-wrap; word-wrap: break-word; }\n        </style>\n        </html>\n        ";

/// An ampersand, escaped.
pub const AMP: &'static str = "&amp;";

/// A less-than sign, escaped.
pub const LT: &'static str = "&lt;";

/// A greater-than sign, escaped.
pub const GT: &'static str = "&gt;";

/// The bytes of a string.
pub open spec fn text(s: String) -> Seq<u8> {
    encode_utf8(s@)
}

/// A byte as it stands in HTML: `&`, `<` and `>` are escaped.
pub open spec fn escaped_byte(b: u8) -> Seq<u8> {
    if b == 0x26 {
        bytes(AMP)
    } else if b == 0x3C {
        bytes(LT)
    } else if b == 0x3E {
        bytes(GT)
    } else {
        seq![b]
    }
}

/// A text as it stands in HTML: each byte escaped.
pub open spec fn escaped(s: Seq<u8>) -> Seq<u8>
    decreases s.len(),
{
    if s.len() == 0 {
        Seq::empty()
    } else {
        escaped(s.drop_last()) + escaped_byte(s.last())
    }
}

/// The share of failed runs among the runs that failed or succeeded, in
/// percent, rounded down.
pub open spec fn percent_failed(fails: &Fails) -> nat {
    ((fails.fail * 100) / (fails.success + fails.fail)) as nat
}

/// Whether the statistics of a report can be printed: some run failed or
/// succeeded, and the numbers that are printed fit in a `u64`.
pub open spec fn printable(fails: &Fails) -> bool {
    &&& 0 < fails.success + fails.fail <= u64::MAX
    &&& fails.fail * 100 <= u64::MAX
}

/// The error line of an entry; nothing where it has none.
pub open spec fn error_text(fail: Fail) -> Seq<u8> {
    match fail.error_line {
        Some(line) => line@,
        None => Seq::empty(),
    }
}

/// The heading and the statistics of a report.
pub open spec fn stats_of(fails: &Fails) -> Seq<u8> {
    bytes(TITLE_OPEN) + text(fails.start) + bytes(TITLE_TO) + text(fails.end) + bytes(STATS_OPEN)
        + decimal(fails.fail as nat) + bytes(STATS_OF) + decimal(
        (fails.success + fails.fail) as nat,
    ) + bytes(STATS_PERCENT) + decimal(percent_failed(fails)) + bytes(STATS_CANCELLED) + decimal(
        fails.cancelled as nat,
    ) + bytes(STATS_CLOSE)
}

/// The row of an entry in the summary table. Nothing in it is escaped.
pub open spec fn row_of(fail: Fail) -> Seq<u8> {
    bytes(ROW_OPEN) + text(fail.time) + bytes(ROW_PR) + decimal(fail.pr_id as nat) + bytes(
        ROW_PR_TEXT,
    ) + decimal(fail.pr_id as nat) + bytes(ROW_JOB) + text(fail.job_name) + bytes(ROW_LOG)
        + decimal(fail.job_id as nat) + bytes(ROW_ERROR) + error_text(fail) + bytes(ROW_CLOSE)
}

/// The article of an entry, with its excerpt escaped.
pub open spec fn article_of(fail: Fail) -> Seq<u8> {
    bytes(ARTICLE_OPEN) + decimal(fail.job_id as nat) + bytes(ARTICLE_URL) + text(fail.url)
        + bytes(ARTICLE_TITLE) + text(fail.title) + bytes(ARTICLE_JOB) + text(fail.job_name)
        + bytes(ARTICLE_TIME) + text(fail.time) + bytes(ARTICLE_LOG) + escaped(fail.short_log@)
        + bytes(ARTICLE_CLOSE)
}

/// The rows of the entries, in order.
pub open spec fn rows_of(fails: Seq<Fail>) -> Seq<u8>
    decreases fails.len(),
{
    if fails.len() == 0 {
        Seq::empty()
    } else {
        rows_of(fails.drop_last()) + row_of(fails.last())
    }
}

/// The articles of the entries, in order.
pub open spec fn articles_of(fails: Seq<Fail>) -> Seq<u8>
    decreases fails.len(),
{
    if fails.len() == 0 {
        Seq::empty()
    } else {
        articles_of(fails.drop_last()) + article_of(fails.last())
    }
}

/// The page of a report: the head, the statistics, the summary table, the
/// excerpts, and the foot.
pub open spec fn html_of(fails: &Fails) -> Seq<u8> {
    bytes(HEAD) + stats_of(fails) + (bytes(SUMMARY_OPEN) + rows_of(fails.fails@) + bytes(
        SUMMARY_CLOSE,
    )) + (bytes(LOGS_OPEN) + articles_of(fails.fails@) + bytes(LOGS_CLOSE)) + bytes(FOOT)
}

/// Escaping a text in two parts.
pub proof fn lemma_escaped_concat(a: Seq<u8>, b: Seq<u8>)
    ensures
        escaped(a + b) == escaped(a) + escaped(b),
    decreases b.len(),
{
    if b.len() == 0 {
        assert(a + b =~= a);
        assert(escaped(a) + escaped(b) =~= escaped(a));
    } else {
        assert((a + b).drop_last() =~= a + b.drop_last());
        lemma_escaped_concat(a, b.drop_last());
        assert(escaped(a + b) =~= escaped(a) + escaped(b));
    }
}

/// Appends the bytes of a literal.
fn push_str(out: &mut Vec<u8>, s: &str)
    ensures
        final(out)@ == old(out)@ + bytes(s),
{
    crate::excerpt::append(out, s.as_bytes());
}

/// Appends the bytes of a string.
fn push_text(out: &mut Vec<u8>, s: &String)
    ensures
        final(out)@ == old(out)@ + text(*s),
{
    crate::excerpt::append(out, s.as_str().as_bytes());
}

/// Appends `s` with `&`, `<` and `>` escaped.
pub fn push_escaped(out: &mut Vec<u8>, s: &[u8])
    ensures
        final(out)@ == old(out)@ + escaped(s@),
{
    let n: usize = s.len();
    let ghost before = out@;
    let mut i: usize = 0;
    proof {
        assert(s@.take(0) =~= Seq::<u8>::empty());
        assert(before + escaped(s@.take(0)) =~= before);
    }
    while i < n
        invariant
            n == s@.len(),
            i <= n,
            out@ == before + escaped(s@.take(i as int)),
        decreases n - i,
    {
        let b: u8 = s[i];
        let ghost so_far = out@;
        if b == 0x26 {
            push_str(out, AMP);
        } else if b == 0x3C {
            push_str(out, LT);
        } else if b == 0x3E {
            push_str(out, GT);
        } else {
            out.push(b);
            proof {
                assert(out@ =~= so_far + seq![b]);
            }
        }
        proof {
            assert(s@.take(i + 1).drop_last() =~= s@.take(i as int));
            assert(s@.take(i + 1).last() == b);
            assert(out@ =~= before + escaped(s@.take(i + 1)));
        }
        i = i + 1;
    }
    proof {
        assert(s@.take(n as int) =~= s@);
    }
}

/// Whether the statistics of a report can be printed.
pub fn can_print(fails: &Fails) -> (r: bool)
    ensures
        r == printable(fails),
{
    fails.fail <= u64::MAX / 100 && fails.success <= u64::MAX - fails.fail && (fails.success > 0
        || fails.fail > 0)
}

/// Appends the heading and the statistics of a report.
fn push_stats(out: &mut Vec<u8>, fails: &Fails)
    requires
        printable(fails),
    ensures
        final(out)@ == old(out)@ + stats_of(fails),
{
    let ghost before = out@;
    let total: u64 = fails.success + fails.fail;
    let percent: u64 = (fails.fail * 100) / total;
    push_str(out, TITLE_OPEN);
    push_text(out, &fails.start);
    push_str(out, TITLE_TO);
    push_text(out, &fails.end);
    push_str(out, STATS_OPEN);
    push_decimal(out, fails.fail);
    push_str(out, STATS_OF);
    push_decimal(out, total);
    push_str(out, STATS_PERCENT);
    push_decimal(out, percent);
    push_str(out, STATS_CANCELLED);
    push_decimal(out, fails.cancelled);
    push_str(out, STATS_CLOSE);
    proof {
        assert(out@ =~= before + stats_of(fails));
    }
}

/// Appends the row of an entry.
fn push_row(out: &mut Vec<u8>, fail: &Fail)
    ensures
        final(out)@ == old(out)@ + row_of(*fail),
{
    let ghost before = out@;
    push_str(out, ROW_OPEN);
    push_text(out, &fail.time);
    push_str(out, ROW_PR);
    push_decimal(out, fail.pr_id);
    push_str(out, ROW_PR_TEXT);
    push_decimal(out, fail.pr_id);
    push_str(out, ROW_JOB);
    push_text(out, &fail.job_name);
    push_str(out, ROW_LOG);
    push_decimal(out, fail.job_id);
    push_str(out, ROW_ERROR);
    match &fail.error_line {
        Some(line) => {
            crate::excerpt::append(out, line.as_slice());
        },
        None => {
            proof {
                assert(out@ + Seq::<u8>::empty() =~= out@);
            }
        },
    }
    push_str(out, ROW_CLOSE);
    proof {
        assert(out@ =~= before + row_of(*fail));
    }
}

/// Appends the article of an entry.
fn push_article(out: &mut Vec<u8>, fail: &Fail)
    ensures
        final(out)@ == old(out)@ + article_of(*fail),
{
    let ghost before = out@;
    push_str(out, ARTICLE_OPEN);
    push_decimal(out, fail.job_id);
    push_str(out, ARTICLE_URL);
    push_text(out, &fail.url);
    push_str(out, ARTICLE_TITLE);
    push_text(out, &fail.title);
    push_str(out, ARTICLE_JOB);
    push_text(out, &fail.job_name);
    push_str(out, ARTICLE_TIME);
    push_text(out, &fail.time);
    push_str(out, ARTICLE_LOG);
    push_escaped(out, fail.short_log.as_slice());
    push_str(out, ARTICLE_CLOSE);
    proof {
        assert(out@ =~= before + article_of(*fail));
    }
}

/// Writes the report as a page of HTML.
pub fn make_html(fails: &Fails) -> (r: Vec<u8>)
    requires
        printable(fails),
    ensures
        r@ == html_of(fails),
{
    let mut html: Vec<u8> = Vec::new();
    push_str(&mut html, HEAD);
    push_stats(&mut html, fails);
    let mut summary: Vec<u8> = Vec::new();
    push_str(&mut summary, SUMMARY_OPEN);
    let mut logs: Vec<u8> = Vec::new();
    push_str(&mut logs, LOGS_OPEN);
    let n: usize = fails.fails.len();
    let mut i: usize = 0;
    proof {
        assert(fails.fails@.take(0) =~= Seq::<Fail>::empty());
        assert(summary@ =~= bytes(SUMMARY_OPEN) + rows_of(fails.fails@.take(0)));
        assert(logs@ =~= bytes(LOGS_OPEN) + articles_of(fails.fails@.take(0)));
    }
    while i < n
        invariant
            n == fails.fails@.len(),
            i <= n,
            summary@ == bytes(SUMMARY_OPEN) + rows_of(fails.fails@.take(i as int)),
            logs@ == bytes(LOGS_OPEN) + articles_of(fails.fails@.take(i as int)),
        decreases n - i,
    {
        let fail = &fails.fails[i];
        push_row(&mut summary, fail);
        push_article(&mut logs, fail);
        proof {
            let next = fails.fails@.take(i + 1);
            assert(next.drop_last() =~= fails.fails@.take(i as int));
            assert(next.last() == *fail);
            assert(summary@ =~= bytes(SUMMARY_OPEN) + rows_of(next));
            assert(logs@ =~= bytes(LOGS_OPEN) + articles_of(next));
        }
        i = i + 1;
    }
    proof {
        assert(fails.fails@.take(n as int) =~= fails.fails@);
    }
    push_str(&mut summary, SUMMARY_CLOSE);
    push_str(&mut logs, LOGS_CLOSE);
    crate::excerpt::append(&mut html, summary.as_slice());
    crate::excerpt::append(&mut html, logs.as_slice());
    push_str(&mut html, FOOT);
    proof {
        assert(html@ =~= html_of(fails));
    }
    html
}

} // verus!
