//! A request to the GitHub API, as the `gh` command line tool takes it, and
//! the records that the API returns.

use vstd::prelude::*;

verus! {

/// What a request holds, as mathematical values.
pub struct GithubApiView {
    pub api: Seq<char>,
    pub headers: Seq<Seq<char>>,
    pub fields: Seq<Seq<char>>,
    pub all_pages: bool,
}

/// A request to one endpoint of the API.
#[derive(Debug)]
pub struct GithubApi {
    api: String,
    headers: Vec<String>,
    fields: Vec<String>,
    all_pages: bool,
}

/// The strings of a list, as sequences of characters.
pub open spec fn texts(v: Seq<String>) -> Seq<Seq<char>> {
    v.map_values(|s: String| s@)
}

/// Each value behind the flag that introduces it.
pub open spec fn flagged(flag: Seq<char>, values: Seq<Seq<char>>) -> Seq<Seq<char>>
    decreases values.len(),
{
    if values.len() == 0 {
        Seq::empty()
    } else {
        seq![flag, values[0]] + flagged(flag, values.drop_first())
    }
}

/// The headers that every request carries, behind its own.
pub open spec fn default_headers() -> Seq<Seq<char>> {
    seq!["Accept: application/vnd.github+json"@, "X-GitHub-Api-Version: 2022-11-28"@]
}

/// The arguments that `gh` is run with for a request: the endpoint and the
/// method, each header, each field, and the flags that ask for every page.
pub open spec fn arguments_of(request: GithubApiView) -> Seq<Seq<char>> {
    seq!["api"@, request.api, "--method"@, "GET"@] + flagged(
        "-H"@,
        request.headers + default_headers(),
    ) + flagged("-f"@, request.fields) + if request.all_pages {
        seq!["--paginate"@, "--slurp"@]
    } else {
        Seq::empty()
    }
}

/// One value behind its flag.
pub proof fn lemma_flagged_one(flag: Seq<char>, value: Seq<char>)
    ensures
        flagged(flag, seq![value]) == seq![flag, value],
{
    reveal_with_fuel(flagged, 2);
    assert(seq![value].drop_first() =~= Seq::<Seq<char>>::empty());
    assert(seq![flag, value] + Seq::<Seq<char>>::empty() =~= seq![flag, value]);
}

/// Flagging a list in two parts.
pub proof fn lemma_flagged_concat(flag: Seq<char>, a: Seq<Seq<char>>, b: Seq<Seq<char>>)
    ensures
        flagged(flag, a + b) == flagged(flag, a) + flagged(flag, b),
    decreases a.len(),
{
    if a.len() == 0 {
        assert(a + b =~= b);
        assert(flagged(flag, a) + flagged(flag, b) =~= flagged(flag, b));
    } else {
        assert((a + b).drop_first() =~= a.drop_first() + b);
        lemma_flagged_concat(flag, a.drop_first(), b);
        assert(flagged(flag, a + b) =~= flagged(flag, a) + flagged(flag, b));
    }
}

impl View for GithubApi {
    type V = GithubApiView;

    closed spec fn view(&self) -> GithubApiView {
        GithubApiView {
            api: self.api@,
            headers: texts(self.headers@),
            fields: texts(self.fields@),
            all_pages: self.all_pages,
        }
    }
}

impl Default for GithubApi {
    /// A request to the empty endpoint, with no header and no field.
    fn default() -> (r: Self)
        ensures
            r@ == (GithubApiView {
                api: Seq::empty(),
                headers: Seq::empty(),
                fields: Seq::empty(),
                all_pages: false,
            }),
    {
        let r = GithubApi {
            api: String::new(),
            headers: Vec::new(),
            fields: Vec::new(),
            all_pages: false,
        };
        proof {
            assert(texts(r.headers@) =~= Seq::empty());
            assert(texts(r.fields@) =~= Seq::empty());
        }
        r
    }
}

impl GithubApi {
    /// A request to the endpoint `api`, with no header and no field, for one
    /// page.
    pub fn new(api: &str) -> (r: Self)
        ensures
            r@ == (GithubApiView {
                api: api@,
                headers: Seq::empty(),
                fields: Seq::empty(),
                all_pages: false,
            }),
    {
        let r = GithubApi {
            api: api.to_owned(),
            headers: Vec::new(),
            fields: Vec::new(),
            all_pages: false,
        };
        proof {
            assert(texts(r.headers@) =~= Seq::empty());
            assert(texts(r.fields@) =~= Seq::empty());
        }
        r
    }

    /// Adds one field, behind those that the request has.
    pub fn field(&mut self, field: &str) -> (r: &mut Self)
        ensures
            r@ == (GithubApiView { fields: old(self)@.fields.push(field@), ..old(self)@ }),
            *final(self) == *final(r),
    {
        let ghost before = self.fields@;
        self.fields.push(field.to_owned());
        proof {
            assert(texts(self.fields@) =~= texts(before).push(field@));
        }
        self
    }

    /// Adds the given fields in order, behind those that the request has.
    pub fn fields(&mut self, fields: &[&str]) -> (r: &mut Self)
        ensures
            r@ == (GithubApiView {
                fields: old(self)@.fields + fields@.map_values(|f: &str| f@),
                ..old(self)@
            }),
            *final(self) == *final(r),
    {
        let n: usize = fields.len();
        let ghost start = self@;
        let ghost added = fields@.map_values(|f: &str| f@);
        let mut i: usize = 0;
        proof {
            assert(start.fields + added.take(0) =~= start.fields);
        }
        while i < n
            invariant
                n == fields@.len(),
                i <= n,
                added == fields@.map_values(|f: &str| f@),
                self@ == (GithubApiView { fields: start.fields + added.take(i as int), ..start }),
            decreases n - i,
        {
            self.field(fields[i]);
            proof {
                assert((start.fields + added.take(i as int)).push(fields@[i as int]@)
                    =~= start.fields + added.take(i + 1));
            }
            i = i + 1;
        }
        proof {
            assert(added.take(n as int) =~= added);
        }
        self
    }

    /// Asks for every page of the answer.
    pub fn all_pages(&mut self) -> (r: &mut Self)
        ensures
            r@ == (GithubApiView { all_pages: true, ..old(self)@ }),
            *final(self) == *final(r),
    {
        self.all_pages = true;
        self
    }

    /// The arguments to run `gh` with.
    pub fn arguments(&self) -> (r: Vec<String>)
        ensures
            texts(r@) == arguments_of(self@),
    {
        let mut args: Vec<String> = Vec::new();
        args.push("api".to_owned());
        args.push(self.api.clone());
        args.push("--method".to_owned());
        args.push("GET".to_owned());
        proof {
            assert(texts(args@) =~= seq!["api"@, self@.api, "--method"@, "GET"@]);
        }
        push_flagged(&mut args, "-H", &self.headers);
        push_flag(&mut args, "-H", "Accept: application/vnd.github+json");
        push_flag(&mut args, "-H", "X-GitHub-Api-Version: 2022-11-28");
        proof {
            let own = texts(self.headers@);
            lemma_flagged_concat("-H"@, own, default_headers());
            let first = seq!["Accept: application/vnd.github+json"@];
            let second = seq!["X-GitHub-Api-Version: 2022-11-28"@];
            assert(default_headers() =~= first + second);
            lemma_flagged_concat("-H"@, first, second);
            lemma_flagged_one("-H"@, "Accept: application/vnd.github+json"@);
            lemma_flagged_one("-H"@, "X-GitHub-Api-Version: 2022-11-28"@);
            assert(texts(args@) =~= seq!["api"@, self@.api, "--method"@, "GET"@] + flagged(
                "-H"@,
                own + default_headers(),
            ));
        }
        push_flagged(&mut args, "-f", &self.fields);
        if self.all_pages {
            let ghost before = texts(args@);
            args.push("--paginate".to_owned());
            args.push("--slurp".to_owned());
            proof {
                assert(texts(args@) =~= before + seq!["--paginate"@, "--slurp"@]);
            }
        } else {
            proof {
                assert(texts(args@) + Seq::<Seq<char>>::empty() =~= texts(args@));
            }
        }
        args
    }
}

/// Adds a flag and its value to the arguments.
fn push_flag(args: &mut Vec<String>, flag: &str, value: &str)
    ensures
        texts(final(args)@) == texts(old(args)@) + seq![flag@, value@],
{
    let ghost before = texts(args@);
    args.push(flag.to_owned());
    args.push(value.to_owned());
    proof {
        assert(texts(args@) =~= before + seq![flag@, value@]);
    }
}

/// Adds each value, behind the flag, to the arguments.
fn push_flagged(args: &mut Vec<String>, flag: &str, values: &Vec<String>)
    ensures
        texts(final(args)@) == texts(old(args)@) + flagged(flag@, texts(values@)),
{
    let n: usize = values.len();
    let ghost before = texts(args@);
    let ghost all = texts(values@);
    let mut i: usize = 0;
    proof {
        assert(all.take(0) =~= Seq::<Seq<char>>::empty());
        assert(before + flagged(flag@, all.take(0)) =~= before);
    }
    while i < n
        invariant
            n == values@.len(),
            i <= n,
            all == texts(values@),
            texts(args@) == before + flagged(flag@, all.take(i as int)),
        decreases n - i,
    {
        let ghost so_far = texts(args@);
        push_flag(args, flag, values[i].as_str());
        proof {
            let one = seq![all[i as int]];
            assert(all.take(i + 1) =~= all.take(i as int) + one);
            lemma_flagged_concat(flag@, all.take(i as int), one);
            lemma_flagged_one(flag@, all[i as int]);
            assert(so_far + seq![flag@, all[i as int]] =~= before + (flagged(
                flag@,
                all.take(i as int),
            ) + flagged(flag@, one)));
        }
        i = i + 1;
    }
    proof {
        assert(all.take(n as int) =~= all);
    }
}

/// How a run or a job ended.
#[derive(Clone, Copy, PartialEq, Eq, Structural, Debug)]
pub enum Conclusion {
    Failure,
    Success,
    Cancelled,
    Skipped,
}

/// One page of workflow runs.
pub struct WorkflowRuns {
    pub workflow_runs: Vec<WorkflowRun>,
}

/// One run of a workflow.
pub struct WorkflowRun {
    pub id: u64,
    pub display_title: String,
    pub run_number: u64,
    pub status: String,
    pub conclusion: Option<Conclusion>,
    pub check_suite_id: u64,
    pub url: String,
    pub html_url: String,
    pub run_attempt: u64,
}

/// The jobs of one run.
pub struct Jobs {
    pub jobs: Vec<Job>,
}

/// One job of a run.
#[derive(Debug)]
pub struct Job {
    pub id: u64,
    pub html_url: String,
    pub conclusion: Conclusion,
    pub started_at: String,
    pub name: String,
    pub steps: Vec<Step>,
}

/// One step of a job.
#[derive(Debug)]
pub struct Step {
    pub name: String,
    pub conclusion: Conclusion,
    pub number: u64,
}

} // verus!
