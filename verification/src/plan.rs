//! The step planner: what each step action means as outside work, and how
//! the raw results of that work classify into a step outcome.
//!
//! A step plans either to a short sequence of shell commands in a working
//! directory — run in order, stopping at the first failure — or to an
//! outcome that is already decided (an action under the wrong executor, a
//! deploy trigger pending integration, or work that must be delegated to
//! an external model).  The shell around the library spawns the commands
//! and feeds exit code and captured output back into the classifiers
//! here.

use vstd::prelude::*;

use crate::model::Executor;
use crate::model::StepAction;
use crate::model::StepStatus;
use crate::model::TaskStep;
use crate::text::dec_int;
use crate::text::i32_to_string;
use crate::text::lower_of;
use crate::text::str_eq;
use crate::text::to_lower;
use crate::text::to_upper;
use crate::text::trim_str;
use crate::text::trimmed;
use crate::text::upper_of;

verus! {

/// What must happen after the shell commands of a plan ran.
#[derive(Clone, Copy, Debug, PartialEq, Eq, Structural)]
pub enum ShellPost {
    /// The exit-code classification is the step's outcome.
    Plain,
    /// The captured output carries an HTTP status code to inspect.
    Http,
}

/// What the shell must do for one step.
#[derive(Clone, Debug, PartialEq)]
pub enum StepPlan {
    /// Run these commands in order in the working directory, stopping at
    /// the first that fails; the last command run decides.
    Shell { commands: Vec<String>, cwd: String, post: ShellPost },
    /// No outside work: the outcome is already decided.
    Done { status: StepStatus, output: Option<String>, error: Option<String> },
}

/// View of a [`StepPlan`].
#[verifier::ext_equal]
pub ghost enum PlanV {
    Shell { commands: Seq<Seq<char>>, cwd: Seq<char>, post: ShellPost },
    Done { status: StepStatus, output: Option<Seq<char>>, error: Option<Seq<char>> },
}

impl View for StepPlan {
    type V = PlanV;

    open spec fn view(&self) -> PlanV {
        match self {
            StepPlan::Shell { commands, cwd, post } => PlanV::Shell {
                commands: commands.deep_view(),
                cwd: cwd@,
                post: *post,
            },
            StepPlan::Done { status, output, error } => PlanV::Done {
                status: *status,
                output: output.deep_view(),
                error: error.deep_view(),
            },
        }
    }
}

/// A string with every double quote backslash-escaped.
pub open spec fn escaped_quotes(s: Seq<char>) -> Seq<char>
    decreases s.len(),
{
    if s.len() == 0 {
        s
    } else {
        (if s[0] == '"' {
            seq!['\\', '"']
        } else {
            seq![s[0]]
        }) + escaped_quotes(s.drop_first())
    }
}

/// Escapes every double quote in a string.
pub fn escape_quotes(s: &str) -> (r: String)
    ensures
        r@ == escaped_quotes(s@),
{
    let n = s.unicode_len();
    let mut out = String::new();
    let mut i: usize = 0;
    proof {
        assert(s@.skip(0) =~= s@);
    }
    while i < n
        invariant
            i <= n,
            n == s@.len(),
            out@ + escaped_quotes(s@.skip(i as int)) == escaped_quotes(s@),
        decreases n - i,
    {
        let c = s.get_char(i);
        proof {
            assert(s@.skip(i as int)[0] == s@[i as int]);
            assert(s@.skip(i as int).drop_first() =~= s@.skip(i as int + 1));
        }
        let ghost before = out@;
        if c == '"' {
            out.push('\\');
            out.push('"');
            proof {
                assert(out@ =~= before + seq!['\\', '"']);
            }
        } else {
            out.push(c);
            proof {
                assert(out@ =~= before + seq![c]);
            }
        }
        proof {
            assert(out@ + escaped_quotes(s@.skip(i as int + 1)) =~= before + escaped_quotes(
                s@.skip(i as int),
            ));
        }
        i = i + 1;
    }
    proof {
        assert(s@.skip(n as int) =~= Seq::<char>::empty());
        assert(out@ =~= escaped_quotes(s@));
    }
    out
}

/// A string wrapped in double quotes, with inner quotes escaped.
pub open spec fn quoted(s: Seq<char>) -> Seq<char> {
    seq!['"'] + escaped_quotes(s) + seq!['"']
}

/// Wraps a string in double quotes, escaping inner quotes.
pub fn quote_str(s: &str) -> (r: String)
    ensures
        r@ == quoted(s@),
{
    let mut out = String::from_str("\"");
    let esc = escape_quotes(s);
    out.append(esc.as_str());
    out.append("\"");
    proof {
        reveal_strlit("\"");
        assert(("\"")@ =~= seq!['"']);
        assert(out@ =~= quoted(s@));
    }
    out
}

/// How a command-line part is rendered: quoted when it holds a space or
/// a quote, bare otherwise.
pub open spec fn rendered_part(s: Seq<char>) -> Seq<char> {
    if (exists|j: int| 0 <= j < s.len() && (s[j] == ' ' || s[j] == '"')) {
        quoted(s)
    } else {
        s
    }
}

/// Renders one command-line part.
pub fn render_part(s: &str) -> (r: String)
    ensures
        r@ == rendered_part(s@),
{
    let n = s.unicode_len();
    let mut needs: bool = false;
    let mut i: usize = 0;
    while i < n
        invariant
            i <= n,
            n == s@.len(),
            needs == exists|j: int| 0 <= j < i && (s@[j] == ' ' || s@[j] == '"'),
        decreases n - i,
    {
        let c = s.get_char(i);
        if c == ' ' || c == '"' {
            needs = true;
        }
        i = i + 1;
    }
    if needs {
        quote_str(s)
    } else {
        s.to_owned()
    }
}

/// Parts joined with single spaces.
pub open spec fn joined(parts: Seq<Seq<char>>) -> Seq<char>
    decreases parts.len(),
{
    if parts.len() == 0 {
        Seq::empty()
    } else if parts.len() == 1 {
        parts[0]
    } else {
        joined(parts.drop_last()) + seq![' '] + parts.last()
    }
}

/// The rendered command line of a list of parts.
pub open spec fn command_line(parts: Seq<Seq<char>>) -> Seq<char> {
    joined(parts.map_values(|p: Seq<char>| rendered_part(p)))
}

/// Renders and joins command-line parts into one shell command.
pub fn render_command(parts: &Vec<String>) -> (r: String)
    ensures
        r@ == command_line(parts.deep_view()),
{
    let ghost all = parts.deep_view().map_values(|p: Seq<char>| rendered_part(p));
    let mut out = String::new();
    let mut i: usize = 0;
    proof {
        assert(all.take(0) =~= Seq::<Seq<char>>::empty());
    }
    while i < parts.len()
        invariant
            i <= parts@.len(),
            all == parts.deep_view().map_values(|p: Seq<char>| rendered_part(p)),
            all.len() == parts@.len(),
            out@ == joined(all.take(i as int)),
        decreases parts@.len() - i,
    {
        proof {
            assert(parts.deep_view()[i as int] == parts@[i as int]@);
            assert(all[i as int] == rendered_part(parts.deep_view()[i as int]));
        }
        let piece = render_part(parts[i].as_str());
        if i > 0 {
            out.append(" ");
        }
        out.append(piece.as_str());
        proof {
            reveal_strlit(" ");
            assert((" ")@ =~= seq![' ']);
            let longer = all.take(i as int + 1);
            assert(longer.drop_last() =~= all.take(i as int));
            assert(longer.last() == all[i as int]);
            if i == 0 {
                assert(out@ =~= joined(longer));
            } else {
                assert(out@ =~= joined(longer));
            }
        }
        i = i + 1;
    }
    proof {
        assert(all.take(all.len() as int) =~= all);
    }
    out
}

/// Whether some header key reads `content-type` once lower-cased.
pub open spec fn has_content_type(headers: Option<Seq<(Seq<char>, Seq<char>)>>) -> bool {
    match headers {
        Option::Some(hs) => exists|j: int|
            0 <= j < hs.len() && lower_of((#[trigger] hs[j]).0) == "content-type"@,
        Option::None => false,
    }
}

/// Decides [`has_content_type`] over concrete headers.
fn check_content_type(headers: &Option<Vec<(String, String)>>) -> (r: bool)
    ensures
        r == has_content_type(headers.deep_view()),
{
    match headers {
        Option::None => false,
        Option::Some(hs) => {
            proof {
                assert(headers.deep_view() == Option::Some(hs.deep_view()));
            }
            let mut i: usize = 0;
            while i < hs.len()
                invariant
                    i <= hs@.len(),
                    hs.deep_view().len() == hs@.len(),
                    headers.deep_view() == Option::Some(hs.deep_view()),
                    forall|j: int|
                        0 <= j < i ==> lower_of((#[trigger] hs.deep_view()[j]).0)
                            != "content-type"@,
                decreases hs@.len() - i,
            {
                proof {
                    assert(hs.deep_view()[i as int] == hs@[i as int].deep_view());
                    assert(hs@[i as int].deep_view().0 == hs@[i as int].0.deep_view());
                }
                let low = to_lower(hs[i].0.as_str());
                if str_eq(low.as_str(), "content-type") {
                    proof {
                        let hsv = headers.deep_view().unwrap();
                        assert(hsv == hs.deep_view());
                        assert(0 <= i < hsv.len());
                        assert(lower_of(hsv[i as int].0) == "content-type"@);
                        assert(has_content_type(headers.deep_view()));
                    }
                    return true;
                }
                i = i + 1;
            }
            proof {
                assert(!has_content_type(headers.deep_view()));
            }
            false
        },
    }
}

/// The `-H` arguments for a list of headers, in order.
pub open spec fn header_parts(hs: Seq<(Seq<char>, Seq<char>)>) -> Seq<Seq<char>>
    decreases hs.len(),
{
    if hs.len() == 0 {
        Seq::empty()
    } else {
        header_parts(hs.drop_last()) + seq!["-H"@, hs.last().0 + ": "@ + hs.last().1]
    }
}

/// The command-line parts of the HTTP call for a request: the transfer
/// tool, silenced, writing the status code on a final line, with method,
/// headers, body (adding a JSON content type when none is given) and the
/// target address.
pub open spec fn curl_parts(
    url: Seq<char>,
    method: Seq<char>,
    headers: Option<Seq<(Seq<char>, Seq<char>)>>,
    body: Option<Seq<char>>,
) -> Seq<Seq<char>> {
    let base = seq!["curl"@, "-s"@, "-w"@, "\\n%{http_code}"@, "-X"@, upper_of(method)];
    let with_headers = base + (match headers {
        Option::Some(hs) => header_parts(hs),
        Option::None => Seq::empty(),
    });
    let with_body = with_headers + (match body {
        Option::Some(b) => seq!["-d"@, b] + (if !has_content_type(headers) {
            seq!["-H"@, "Content-Type: application/json"@]
        } else {
            Seq::empty()
        }),
        Option::None => Seq::empty(),
    });
    with_body + seq![url]
}

/// Builds the HTTP command-line parts for a request.
pub fn build_curl_parts(
    url: &String,
    method: &String,
    headers: &Option<Vec<(String, String)>>,
    body: &Option<String>,
) -> (r: Vec<String>)
    ensures
        r.deep_view() == curl_parts(url@, method@, headers.deep_view(), body.deep_view()),
{
    let mut parts: Vec<String> = Vec::new();
    parts.push(String::from_str("curl"));
    parts.push(String::from_str("-s"));
    parts.push(String::from_str("-w"));
    parts.push(String::from_str("\\n%{http_code}"));
    parts.push(String::from_str("-X"));
    parts.push(to_upper(method.as_str()));
    proof {
        assert(parts.deep_view() =~= seq![
            "curl"@,
            "-s"@,
            "-w"@,
            "\\n%{http_code}"@,
            "-X"@,
            upper_of(method@),
        ]);
    }
    if let Option::Some(hs) = headers {
        let mut i: usize = 0;
        let ghost base = parts.deep_view();
        proof {
            assert(hs.deep_view().take(0) =~= Seq::<(Seq<char>, Seq<char>)>::empty());
            assert(parts.deep_view() =~= base + header_parts(hs.deep_view().take(0)));
        }
        while i < hs.len()
            invariant
                i <= hs@.len(),
                hs.deep_view().len() == hs@.len(),
                parts.deep_view() == base + header_parts(hs.deep_view().take(i as int)),
            decreases hs@.len() - i,
        {
            let ghost prev = parts.deep_view();
            proof {
                assert(hs.deep_view()[i as int] == hs@[i as int].deep_view());
            }
            parts.push(String::from_str("-H"));
            let mut header = hs[i].0.clone();
            header.append(": ");
            header.append(hs[i].1.as_str());
            parts.push(header);
            proof {
                reveal_strlit(": ");
                let longer = hs.deep_view().take(i as int + 1);
                assert(longer.drop_last() =~= hs.deep_view().take(i as int));
                assert(longer.last() == hs.deep_view()[i as int]);
                assert(parts.deep_view() =~= prev + seq![
                    "-H"@,
                    hs.deep_view()[i as int].0 + ": "@ + hs.deep_view()[i as int].1,
                ]);
                assert(parts.deep_view() =~= base + header_parts(longer));
            }
            i = i + 1;
        }
        proof {
            assert(hs.deep_view().take(hs.deep_view().len() as int) =~= hs.deep_view());
        }
    }
    if let Option::Some(b) = body {
        let ghost before_body = parts.deep_view();
        parts.push(String::from_str("-d"));
        parts.push(b.clone());
        proof {
            assert(parts.deep_view() =~= before_body + seq!["-d"@, b@]);
        }
        if !check_content_type(headers) {
            let ghost before_ct = parts.deep_view();
            parts.push(String::from_str("-H"));
            parts.push(String::from_str("Content-Type: application/json"));
            proof {
                assert(parts.deep_view() =~= before_ct + seq![
                    "-H"@,
                    "Content-Type: application/json"@,
                ]);
            }
        }
    }
    let ghost before_url = parts.deep_view();
    parts.push(url.clone());
    proof {
        assert(parts.deep_view() =~= before_url + seq![url@]);
        assert(parts.deep_view() =~= curl_parts(
            url@,
            method@,
            headers.deep_view(),
            body.deep_view(),
        ));
    }
    parts
}

/// The position of the last occurrence of `c`, or `-1`.
pub open spec fn last_pos(s: Seq<char>, c: char) -> int
    decreases s.len(),
{
    if s.len() == 0 {
        -1
    } else if s.last() == c {
        s.len() - 1
    } else {
        last_pos(s.drop_last(), c)
    }
}

/// A backwards scan that saw no `c` at or after `i` and `c` at `i - 1`
/// has found the last occurrence.
proof fn lemma_last_pos_hit(s: Seq<char>, c: char, i: int)
    requires
        0 <= i < s.len(),
        s[i] == c,
        forall|k: int| i < k < s.len() ==> s[k] != c,
    ensures
        last_pos(s, c) == i,
    decreases s.len(),
{
    if i == s.len() - 1 {
    } else {
        assert(s.last() != c);
        assert forall|k: int| i < k < s.len() - 1 implies s.drop_last()[k] != c by {
            assert(s.drop_last()[k] == s[k]);
        }
        assert(s.drop_last()[i] == s[i]);
        lemma_last_pos_hit(s.drop_last(), c, i);
    }
}

/// A backwards scan that saw no `c` anywhere has found nothing.
proof fn lemma_last_pos_miss(s: Seq<char>, c: char)
    requires
        forall|k: int| 0 <= k < s.len() ==> s[k] != c,
    ensures
        last_pos(s, c) == -1,
    decreases s.len(),
{
    if s.len() > 0 {
        assert forall|k: int| 0 <= k < s.len() - 1 implies s.drop_last()[k] != c by {
            assert(s.drop_last()[k] == s[k]);
        }
        lemma_last_pos_miss(s.drop_last(), c);
    }
}

/// The working directory a script runs in: the text before its last
/// slash, the root when the slash leads, the current directory when
/// there is none.
pub open spec fn script_dir(path: Seq<char>) -> Seq<char> {
    let p = last_pos(path, '/');
    if p == -1 {
        "."@
    } else if p == 0 {
        "/"@
    } else {
        path.take(p)
    }
}

/// The extension of a script path: what follows the last dot of its file
/// name, absent when the file name has no dot past its first character.
pub open spec fn script_ext(path: Seq<char>) -> Option<Seq<char>> {
    let file = path.skip(last_pos(path, '/') + 1);
    let d = last_pos(file, '.');
    if d <= 0 {
        Option::None
    } else {
        Option::Some(file.skip(d + 1))
    }
}

/// A string wrapped in plain double quotes.
pub open spec fn wrapped(s: Seq<char>) -> Seq<char> {
    seq!['"'] + s + seq!['"']
}

/// The shell invocation for a script, chosen by its extension: shell,
/// Python, a JS runtime, PowerShell, direct execution for batch files,
/// and a shell for anything unrecognized.
pub open spec fn script_command(path: Seq<char>) -> Seq<char> {
    match script_ext(path) {
        Option::Some(e) => {
            if e == "sh"@ || e == "bash"@ {
                "bash "@ + wrapped(path)
            } else if e == "py"@ {
                "python3 "@ + wrapped(path)
            } else if e == "js"@ {
                "node "@ + wrapped(path)
            } else if e == "ps1"@ {
                "powershell -File "@ + wrapped(path)
            } else if e == "bat"@ || e == "cmd"@ {
                wrapped(path)
            } else {
                "bash "@ + wrapped(path)
            }
        },
        Option::None => "bash "@ + wrapped(path),
    }
}

/// Wraps a path in plain double quotes.
fn wrap_quotes(s: &str) -> (r: String)
    ensures
        r@ == wrapped(s@),
{
    let mut out = String::from_str("\"");
    out.append(s);
    out.append("\"");
    proof {
        reveal_strlit("\"");
        assert(("\"")@ =~= seq!['"']);
        assert(out@ =~= wrapped(s@));
    }
    out
}

/// Computes the shell invocation and working directory for a script.
pub fn script_invocation(path: &str) -> (r: (String, String))
    ensures
        r.0@ == script_command(path@),
        r.1@ == script_dir(path@),
{
    let n = path.unicode_len();
    let mut b: usize = n;
    while b > 0 && path.get_char(b - 1) != '/'
        invariant
            b <= n,
            n == path@.len(),
            forall|k: int| b <= k < n ==> path@[k] != '/',
        decreases b,
    {
        b = b - 1;
    }
    let dir: String;
    if b == 0 {
        proof {
            lemma_last_pos_miss(path@, '/');
        }
        dir = String::from_str(".");
        proof {
            reveal_strlit(".");
        }
    } else if b == 1 {
        proof {
            lemma_last_pos_hit(path@, '/', 0);
        }
        dir = String::from_str("/");
        proof {
            reveal_strlit("/");
        }
    } else {
        proof {
            lemma_last_pos_hit(path@, '/', b as int - 1);
        }
        dir = path.substring_char(0, b - 1).to_owned();
    }
    // The file name runs from `b`; look for its last dot.
    let mut d: usize = n;
    while d > b && path.get_char(d - 1) != '.'
        invariant
            b <= d <= n,
            n == path@.len(),
            forall|k: int| d <= k < n ==> path@[k] != '.',
        decreases d,
    {
        d = d - 1;
    }
    let ghost file = path@.skip(last_pos(path@, '/') + 1);
    proof {
        assert(file =~= path@.skip(b as int));
    }
    let ext: Option<String>;
    if d == b {
        proof {
            assert forall|k: int| 0 <= k < file.len() implies file[k] != '.' by {
                assert(file[k] == path@[b + k]);
            }
            lemma_last_pos_miss(file, '.');
        }
        ext = Option::None;
    } else {
        proof {
            assert(file[d - 1 - b as int] == path@[d as int - 1]);
            assert forall|k: int| d - 1 - b < k < file.len() implies file[k] != '.' by {
                assert(file[k] == path@[b + k]);
            }
            lemma_last_pos_hit(file, '.', d - 1 - b as int);
        }
        if d - 1 - b == 0 {
            ext = Option::None;
        } else {
            let e = path.substring_char(d, n).to_owned();
            proof {
                assert(e@ =~= file.skip(d - b as int));
            }
            ext = Option::Some(e);
        }
    }
    let cmd: String = match &ext {
        Option::Some(e) => {
            if str_eq(e.as_str(), "sh") || str_eq(e.as_str(), "bash") {
                let mut c = String::from_str("bash ");
                c.append(wrap_quotes(path).as_str());
                c
            } else if str_eq(e.as_str(), "py") {
                let mut c = String::from_str("python3 ");
                c.append(wrap_quotes(path).as_str());
                c
            } else if str_eq(e.as_str(), "js") {
                let mut c = String::from_str("node ");
                c.append(wrap_quotes(path).as_str());
                c
            } else if str_eq(e.as_str(), "ps1") {
                let mut c = String::from_str("powershell -File ");
                c.append(wrap_quotes(path).as_str());
                c
            } else if str_eq(e.as_str(), "bat") || str_eq(e.as_str(), "cmd") {
                wrap_quotes(path)
            } else {
                let mut c = String::from_str("bash ");
                c.append(wrap_quotes(path).as_str());
                c
            }
        },
        Option::None => {
            let mut c = String::from_str("bash ");
            c.append(wrap_quotes(path).as_str());
            c
        },
    };
    (cmd, dir)
}

/// An optional value, or the given default.
pub open spec fn opt_or(o: Option<Seq<char>>, dflt: Seq<char>) -> Seq<char> {
    match o {
        Option::Some(v) => v,
        Option::None => dflt,
    }
}

/// A prompt clipped to its first 100 characters for a diagnostic.
pub open spec fn clipped_prompt(s: Seq<char>) -> Seq<char> {
    if s.len() <= 100 {
        s
    } else {
        s.take(100)
    }
}

/// The delegation message for content generation: it identifies the
/// clipped prompt and the intended output location.
pub open spec fn generate_message(prompt: Seq<char>, output_path: Option<Seq<char>>) -> Seq<
    char,
> {
    "AI step requires frontend handling — prompt: '"@ + clipped_prompt(prompt) + "', output: "@
        + opt_or(output_path, "none"@) + "."@
}

/// The delegation message for analyze-and-act: it identifies the clipped
/// prompt.
pub open spec fn analyze_message(prompt: Seq<char>) -> Seq<char> {
    "AI step requires frontend handling — prompt: '"@ + clipped_prompt(prompt) + "'."@
}

/// The stub message for a deploy trigger, pending integration with an
/// external connections subsystem.
pub open spec fn deploy_message(provider: Seq<char>, project_id: Seq<char>) -> Seq<char> {
    "Deploy trigger for "@ + provider + " (project "@ + project_id
        + ") — requires Connections integration (coming soon)"@
}

/// What a local step plans to: a shell command or two, or a refusal for
/// an action that does not belong to the local executor.
pub open spec fn spec_plan_local(
    a: crate::model::ActionV,
    project: Option<Seq<char>>,
    home: Seq<char>,
) -> PlanV {
    match a {
        crate::model::ActionV::RunCommand { command, cwd } => PlanV::Shell {
            commands: seq![command],
            cwd: opt_or(cwd, home),
            post: ShellPost::Plain,
        },
        crate::model::ActionV::BackupFiles { source, destination } => PlanV::Shell {
            commands: seq!["cp -r "@ + wrapped(source) + seq![' '] + wrapped(destination)],
            cwd: home,
            post: ShellPost::Plain,
        },
        crate::model::ActionV::GitCommit { message } => PlanV::Shell {
            commands: seq!["git add -A"@, "git commit -m "@ + wrapped(message)],
            cwd: opt_or(project, home),
            post: ShellPost::Plain,
        },
        crate::model::ActionV::GitPush { remote, branch } => PlanV::Shell {
            commands: seq![
                "git push "@ + opt_or(remote, "origin"@) + seq![' '] + opt_or(branch, "main"@),
            ],
            cwd: opt_or(project, home),
            post: ShellPost::Plain,
        },
        crate::model::ActionV::RunScript { path } => PlanV::Shell {
            commands: seq![script_command(path)],
            cwd: script_dir(path),
            post: ShellPost::Plain,
        },
        crate::model::ActionV::DeleteFiles { path, pattern } => PlanV::Shell {
            commands: seq![
                "find "@ + wrapped(path) + " -name "@ + wrapped(pattern) + " -delete"@,
            ],
            cwd: home,
            post: ShellPost::Plain,
        },
        _ => PlanV::Done {
            status: StepStatus::Failed,
            output: Option::None,
            error: Option::Some("Action type not supported by Local executor"@),
        },
    }
}

/// What a web step plans to: an HTTP call through the transfer tool, a
/// deploy-trigger stub, or a refusal for a foreign action.
pub open spec fn spec_plan_web(a: crate::model::ActionV, home: Seq<char>) -> PlanV {
    match a {
        crate::model::ActionV::HttpRequest { url, method, headers, body } => PlanV::Shell {
            commands: seq![command_line(curl_parts(url, method, headers, body))],
            cwd: home,
            post: ShellPost::Http,
        },
        crate::model::ActionV::SendWebhook { url, payload } => PlanV::Shell {
            commands: seq![command_line(curl_parts(url, "POST"@, Option::None, payload))],
            cwd: home,
            post: ShellPost::Http,
        },
        crate::model::ActionV::DeployTrigger { provider, project_id } => PlanV::Done {
            status: StepStatus::Failed,
            output: Option::None,
            error: Option::Some(deploy_message(provider, project_id)),
        },
        _ => PlanV::Done {
            status: StepStatus::Failed,
            output: Option::None,
            error: Option::Some("Action type not supported by Web executor"@),
        },
    }
}

/// What a delegated step plans to: never autonomous work, always a
/// structured failure identifying what an external agent must complete.
pub open spec fn spec_plan_ai(a: crate::model::ActionV) -> PlanV {
    match a {
        crate::model::ActionV::GenerateContent { prompt, output_path } => PlanV::Done {
            status: StepStatus::Failed,
            output: Option::None,
            error: Option::Some(generate_message(prompt, output_path)),
        },
        crate::model::ActionV::AnalyzeAndAct { prompt } => PlanV::Done {
            status: StepStatus::Failed,
            output: Option::None,
            error: Option::Some(analyze_message(prompt)),
        },
        _ => PlanV::Done {
            status: StepStatus::Failed,
            output: Option::None,
            error: Option::Some("Action type not supported by AI executor"@),
        },
    }
}

/// What one step plans to, dispatched by its executor.
pub open spec fn spec_plan_step(
    s: crate::model::StepV,
    project: Option<Seq<char>>,
    home: Seq<char>,
) -> PlanV {
    match s.executor {
        Executor::Local => spec_plan_local(s.action, project, home),
        Executor::Web => spec_plan_web(s.action, home),
        Executor::Ai => spec_plan_ai(s.action),
    }
}

/// Clips a prompt for a diagnostic.
fn clip_prompt(s: &str) -> (r: String)
    ensures
        r@ == clipped_prompt(s@),
{
    let n = s.unicode_len();
    if n <= 100 {
        s.to_owned()
    } else {
        s.substring_char(0, 100).to_owned()
    }
}

/// Plans one step for its executor: local and web actions become shell
/// commands with a working directory, everything else an already-decided
/// outcome.  The caller resolves `home` (the fallback working directory)
/// and passes the owning task's project as the directory for git work.
pub fn plan_step(step: &TaskStep, project_id: &Option<String>, home: &str) -> (r: StepPlan)
    ensures
        r@ == spec_plan_step(step@, project_id.deep_view(), home@),
{
    match step.executor {
        Executor::Local => plan_local(&step.action, project_id, home),
        Executor::Web => plan_web(&step.action, home),
        Executor::Ai => plan_ai(&step.action),
    }
}

/// The failure plan for an action under the wrong executor.
fn mismatch_plan(text: &str) -> (r: StepPlan)
    ensures
        r@ == (PlanV::Done {
            status: StepStatus::Failed,
            output: Option::None,
            error: Option::Some(text@),
        }),
{
    StepPlan::Done {
        status: StepStatus::Failed,
        output: Option::None,
        error: Option::Some(text.to_owned()),
    }
}

/// Plans a local step.
fn plan_local(action: &StepAction, project_id: &Option<String>, home: &str) -> (r: StepPlan)
    ensures
        r@ == spec_plan_local(action@, project_id.deep_view(), home@),
{
    match action {
        StepAction::RunCommand { command, cwd } => {
            let dir = match cwd {
                Option::Some(c) => c.clone(),
                Option::None => home.to_owned(),
            };
            let mut commands: Vec<String> = Vec::new();
            commands.push(command.clone());
            proof {
                assert(commands.deep_view() =~= seq![command@]);
            }
            StepPlan::Shell { commands, cwd: dir, post: ShellPost::Plain }
        },
        StepAction::BackupFiles { source, destination } => {
            let mut c = String::from_str("cp -r ");
            c.append(wrap_quotes(source.as_str()).as_str());
            c.append(" ");
            c.append(wrap_quotes(destination.as_str()).as_str());
            proof {
                reveal_strlit(" ");
                assert((" ")@ =~= seq![' ']);
                assert(c@ =~= "cp -r "@ + wrapped(source@) + seq![' '] + wrapped(destination@));
            }
            let mut commands: Vec<String> = Vec::new();
            commands.push(c);
            proof {
                assert(commands.deep_view() =~= seq![
                    "cp -r "@ + wrapped(source@) + seq![' '] + wrapped(destination@),
                ]);
            }
            StepPlan::Shell { commands, cwd: home.to_owned(), post: ShellPost::Plain }
        },
        StepAction::GitCommit { message } => {
            let dir = match project_id {
                Option::Some(p) => p.clone(),
                Option::None => home.to_owned(),
            };
            let mut c = String::from_str("git commit -m ");
            c.append(wrap_quotes(message.as_str()).as_str());
            let mut commands: Vec<String> = Vec::new();
            commands.push(String::from_str("git add -A"));
            commands.push(c);
            proof {
                assert(commands.deep_view() =~= seq![
                    "git add -A"@,
                    "git commit -m "@ + wrapped(message@),
                ]);
            }
            StepPlan::Shell { commands, cwd: dir, post: ShellPost::Plain }
        },
        StepAction::GitPush { remote, branch } => {
            let dir = match project_id {
                Option::Some(p) => p.clone(),
                Option::None => home.to_owned(),
            };
            let mut c = String::from_str("git push ");
            match remote {
                Option::Some(rm) => c.append(rm.as_str()),
                Option::None => c.append("origin"),
            }
            c.append(" ");
            match branch {
                Option::Some(br) => c.append(br.as_str()),
                Option::None => c.append("main"),
            }
            proof {
                reveal_strlit(" ");
                assert((" ")@ =~= seq![' ']);
                assert(c@ =~= "git push "@ + opt_or(remote.deep_view(), "origin"@) + seq![' ']
                    + opt_or(branch.deep_view(), "main"@));
            }
            let mut commands: Vec<String> = Vec::new();
            commands.push(c);
            proof {
                assert(commands.deep_view() =~= seq![
                    "git push "@ + opt_or(remote.deep_view(), "origin"@) + seq![' '] + opt_or(
                        branch.deep_view(),
                        "main"@,
                    ),
                ]);
            }
            StepPlan::Shell { commands, cwd: dir, post: ShellPost::Plain }
        },
        StepAction::RunScript { path } => {
            let (cmd, dir) = script_invocation(path.as_str());
            let mut commands: Vec<String> = Vec::new();
            commands.push(cmd);
            proof {
                assert(commands.deep_view() =~= seq![script_command(path@)]);
            }
            StepPlan::Shell { commands, cwd: dir, post: ShellPost::Plain }
        },
        StepAction::DeleteFiles { path, pattern } => {
            let mut c = String::from_str("find ");
            c.append(wrap_quotes(path.as_str()).as_str());
            c.append(" -name ");
            c.append(wrap_quotes(pattern.as_str()).as_str());
            c.append(" -delete");
            proof {
                assert(c@ =~= "find "@ + wrapped(path@) + " -name "@ + wrapped(pattern@)
                    + " -delete"@);
            }
            let mut commands: Vec<String> = Vec::new();
            commands.push(c);
            proof {
                assert(commands.deep_view() =~= seq![
                    "find "@ + wrapped(path@) + " -name "@ + wrapped(pattern@) + " -delete"@,
                ]);
            }
            StepPlan::Shell { commands, cwd: home.to_owned(), post: ShellPost::Plain }
        },
        _ => mismatch_plan("Action type not supported by Local executor"),
    }
}

/// Plans a web step.
fn plan_web(action: &StepAction, home: &str) -> (r: StepPlan)
    ensures
        r@ == spec_plan_web(action@, home@),
{
    match action {
        StepAction::HttpRequest { url, method, headers, body } => {
            let parts = build_curl_parts(url, method, headers, body);
            let cmd = render_command(&parts);
            let mut commands: Vec<String> = Vec::new();
            commands.push(cmd);
            proof {
                assert(commands.deep_view() =~= seq![
                    command_line(
                        curl_parts(url@, method@, headers.deep_view(), body.deep_view()),
                    ),
                ]);
            }
            StepPlan::Shell { commands, cwd: home.to_owned(), post: ShellPost::Http }
        },
        StepAction::SendWebhook { url, payload } => {
            let method = String::from_str("POST");
            let no_headers: Option<Vec<(String, String)>> = Option::None;
            let parts = build_curl_parts(url, &method, &no_headers, payload);
            let cmd = render_command(&parts);
            let mut commands: Vec<String> = Vec::new();
            commands.push(cmd);
            proof {
                assert(commands.deep_view() =~= seq![
                    command_line(curl_parts(url@, "POST"@, Option::None, payload.deep_view())),
                ]);
            }
            StepPlan::Shell { commands, cwd: home.to_owned(), post: ShellPost::Http }
        },
        StepAction::DeployTrigger { provider, project_id } => {
            let mut m = String::from_str("Deploy trigger for ");
            m.append(provider.as_str());
            m.append(" (project ");
            m.append(project_id.as_str());
            m.append(") — requires Connections integration (coming soon)");
            proof {
                assert(m@ =~= deploy_message(provider@, project_id@));
            }
            StepPlan::Done {
                status: StepStatus::Failed,
                output: Option::None,
                error: Option::Some(m),
            }
        },
        _ => mismatch_plan("Action type not supported by Web executor"),
    }
}

/// Plans a delegated step.
fn plan_ai(action: &StepAction) -> (r: StepPlan)
    ensures
        r@ == spec_plan_ai(action@),
{
    match action {
        StepAction::GenerateContent { prompt, output_path } => {
            let mut m = String::from_str("AI step requires frontend handling — prompt: '");
            m.append(clip_prompt(prompt.as_str()).as_str());
            m.append("', output: ");
            match output_path {
                Option::Some(p) => m.append(p.as_str()),
                Option::None => m.append("none"),
            }
            m.append(".");
            proof {
                assert(m@ =~= generate_message(prompt@, output_path.deep_view()));
            }
            StepPlan::Done {
                status: StepStatus::Failed,
                output: Option::None,
                error: Option::Some(m),
            }
        },
        StepAction::AnalyzeAndAct { prompt } => {
            let mut m = String::from_str("AI step requires frontend handling — prompt: '");
            m.append(clip_prompt(prompt.as_str()).as_str());
            m.append("'.");
            proof {
                assert(m@ =~= analyze_message(prompt@));
            }
            StepPlan::Done {
                status: StepStatus::Failed,
                output: Option::None,
                error: Option::Some(m),
            }
        },
        _ => mismatch_plan("Action type not supported by AI executor"),
    }
}

/// The classification of a finished shell command: exit code zero is a
/// success with the trimmed standard output (absent when empty);
/// anything else is a failure carrying the trimmed standard error, or a
/// message naming the exit code when standard error is empty.
pub open spec fn spec_classify_exit(code: int, stdout: Seq<char>, stderr: Seq<char>) -> (
    StepStatus,
    Option<Seq<char>>,
    Option<Seq<char>>,
) {
    let out = if stdout.len() > 0 {
        Option::Some(trimmed(stdout))
    } else {
        Option::None
    };
    if code == 0 {
        (StepStatus::Success, out, Option::None)
    } else {
        (
            StepStatus::Failed,
            out,
            Option::Some(
                if stderr.len() > 0 {
                    trimmed(stderr)
                } else {
                    "Command exited with code "@ + dec_int(code)
                },
            ),
        )
    }
}

/// Classifies a finished shell command.
pub fn classify_exit(code: i32, stdout: &str, stderr: &str) -> (r: (
    StepStatus,
    Option<String>,
    Option<String>,
))
    ensures
        (r.0, r.1.deep_view(), r.2.deep_view()) == spec_classify_exit(
            code as int,
            stdout@,
            stderr@,
        ),
{
    let out: Option<String> = if stdout.unicode_len() > 0 {
        Option::Some(trim_str(stdout))
    } else {
        Option::None
    };
    if code == 0 {
        (StepStatus::Success, out, Option::None)
    } else {
        let err: String = if stderr.unicode_len() > 0 {
            trim_str(stderr)
        } else {
            let mut m = String::from_str("Command exited with code ");
            let num = i32_to_string(code);
            m.append(num.as_str());
            m
        };
        (StepStatus::Failed, out, Option::Some(err))
    }
}

/// The outcome when a command could not be spawned at all.
pub fn spawn_failure(detail: &str) -> (r: (StepStatus, Option<String>, Option<String>))
    ensures
        r.0 is Failed,
        r.1 is None,
        r.2.deep_view() == Option::Some("Failed to execute: "@ + detail@),
{
    let mut m = String::from_str("Failed to execute: ");
    m.append(detail);
    (StepStatus::Failed, Option::None, Option::Some(m))
}

/// The position of the first newline, or `-1`.
pub open spec fn first_nl(s: Seq<char>) -> int
    decreases s.len(),
{
    if s.len() == 0 {
        -1
    } else if s[0] == '\n' {
        0
    } else {
        let rest = first_nl(s.drop_first());
        if rest == -1 {
            -1
        } else {
            rest + 1
        }
    }
}

/// A scan that saw no newline before `i` and one at `i` has found the
/// first.
proof fn lemma_first_nl_hit(s: Seq<char>, i: int)
    requires
        0 <= i < s.len(),
        s[i] == '\n',
        forall|k: int| 0 <= k < i ==> s[k] != '\n',
    ensures
        first_nl(s) == i,
    decreases i,
{
    if i > 0 {
        assert(s[0] != '\n');
        assert forall|k: int| 0 <= k < i - 1 implies s.drop_first()[k] != '\n' by {
            assert(s.drop_first()[k] == s[k + 1]);
        }
        assert(s.drop_first()[i - 1] == s[i]);
        lemma_first_nl_hit(s.drop_first(), i - 1);
    }
}

/// A scan that saw no newline at all has found none.
proof fn lemma_first_nl_miss(s: Seq<char>)
    requires
        forall|k: int| 0 <= k < s.len() ==> s[k] != '\n',
    ensures
        first_nl(s) == -1,
    decreases s.len(),
{
    if s.len() > 0 {
        assert(s[0] != '\n');
        assert forall|k: int| 0 <= k < s.len() - 1 implies s.drop_first()[k] != '\n' by {
            assert(s.drop_first()[k] == s[k + 1]);
        }
        lemma_first_nl_miss(s.drop_first());
    }
}

/// A line with a trailing carriage return removed.
pub open spec fn strip_cr(s: Seq<char>) -> Seq<char> {
    if s.len() > 0 && s.last() == '\r' {
        s.drop_last()
    } else {
        s
    }
}

/// The lines of a text: split at newlines, each stripped of a trailing
/// carriage return, with no final empty line for a trailing newline.
pub open spec fn split_lines(s: Seq<char>) -> Seq<Seq<char>>
    decreases s.len(),
{
    if s.len() == 0 {
        Seq::empty()
    } else {
        let p = first_nl(s);
        if !(0 <= p < s.len()) {
            seq![strip_cr(s)]
        } else {
            seq![strip_cr(s.take(p))] + split_lines(s.skip(p + 1))
        }
    }
}

/// Splits a text into its lines.
fn lines_of(s: &str) -> (r: Vec<String>)
    ensures
        r.deep_view() == split_lines(s@),
    decreases s@.len(),
{
    let n = s.unicode_len();
    if n == 0 {
        let r: Vec<String> = Vec::new();
        proof {
            assert(r.deep_view() =~= Seq::<Seq<char>>::empty());
        }
        return r;
    }
    let mut i: usize = 0;
    while i < n && s.get_char(i) != '\n'
        invariant
            i <= n,
            n == s@.len(),
            forall|k: int| 0 <= k < i ==> s@[k] != '\n',
        decreases n - i,
    {
        i = i + 1;
    }
    if i == n {
        proof {
            lemma_first_nl_miss(s@);
        }
        let line = if i > 0 && s.get_char(i - 1) == '\r' {
            let l = s.substring_char(0, i - 1).to_owned();
            proof {
                assert(l@ =~= strip_cr(s@));
            }
            l
        } else {
            let l = s.to_owned();
            proof {
                assert(l@ =~= strip_cr(s@));
            }
            l
        };
        let mut r: Vec<String> = Vec::new();
        r.push(line);
        proof {
            assert(r.deep_view() =~= seq![strip_cr(s@)]);
        }
        r
    } else {
        proof {
            lemma_first_nl_hit(s@, i as int);
        }
        let line = if i > 0 && s.get_char(i - 1) == '\r' {
            let l = s.substring_char(0, i - 1).to_owned();
            proof {
                assert(s@.take(i as int).drop_last() =~= s@.subrange(0, i as int - 1));
                assert(s@.take(i as int).last() == s@[i as int - 1]);
                assert(l@ =~= strip_cr(s@.take(i as int)));
            }
            l
        } else {
            let l = s.substring_char(0, i).to_owned();
            proof {
                if i > 0 {
                    assert(s@.take(i as int).last() == s@[i as int - 1]);
                }
                assert(l@ =~= strip_cr(s@.take(i as int)));
            }
            l
        };
        let rest = s.substring_char(i + 1, n);
        proof {
            assert(rest@ =~= s@.skip(i as int + 1));
            assert(rest@.len() < s@.len());
        }
        let mut tail = lines_of(rest);
        let ghost tailv = tail.deep_view();
        let ghost linev = line@;
        tail.insert(0, line);
        proof {
            assert(tail.deep_view() =~= seq![linev] + tailv);
            assert(tail.deep_view() =~= split_lines(s@));
        }
        tail
    }
}

/// Lines joined back with newlines.
pub open spec fn joined_nl(lines: Seq<Seq<char>>) -> Seq<char>
    decreases lines.len(),
{
    if lines.len() == 0 {
        Seq::empty()
    } else if lines.len() == 1 {
        lines[0]
    } else {
        joined_nl(lines.drop_last()) + seq!['\n'] + lines.last()
    }
}

/// Joins the first `count` lines with newlines.
fn join_first_lines(lines: &Vec<String>, count: usize) -> (r: String)
    requires
        count <= lines@.len(),
    ensures
        r@ == joined_nl(lines.deep_view().take(count as int)),
{
    let mut out = String::new();
    let mut i: usize = 0;
    proof {
        assert(lines.deep_view().take(0) =~= Seq::<Seq<char>>::empty());
    }
    while i < count
        invariant
            i <= count,
            count <= lines@.len(),
            lines.deep_view().len() == lines@.len(),
            out@ == joined_nl(lines.deep_view().take(i as int)),
        decreases count - i,
    {
        proof {
            assert(lines.deep_view()[i as int] == lines@[i as int]@);
        }
        if i > 0 {
            out.append("\n");
        }
        out.append(lines[i].as_str());
        proof {
            reveal_strlit("\n");
            assert(("\n")@ =~= seq!['\n']);
            let longer = lines.deep_view().take(i as int + 1);
            assert(longer.drop_last() =~= lines.deep_view().take(i as int));
            assert(longer.last() == lines.deep_view()[i as int]);
            assert(out@ =~= joined_nl(longer));
        }
        i = i + 1;
    }
    out
}

/// The numeric value of a digit string, or nothing when any character is
/// not a digit or the string is empty.
pub open spec fn digits_val(s: Seq<char>) -> Option<int>
    decreases s.len(),
{
    if s.len() == 0 {
        Option::None
    } else if s.len() == 1 {
        match crate::codec::digit_val(s[0]) {
            Option::Some(d) => Option::Some(d as int),
            Option::None => Option::None,
        }
    } else {
        match (digits_val(s.drop_last()), crate::codec::digit_val(s.last())) {
            (Option::Some(v), Option::Some(d)) => Option::Some(10 * v + d),
            _ => Option::None,
        }
    }
}

/// An HTTP status code read from a digit string.
pub open spec fn parse_code(s: Seq<char>) -> Option<u16> {
    match digits_val(s) {
        Option::Some(v) => if v <= u16::MAX {
            Option::Some(v as u16)
        } else {
            Option::None
        },
        Option::None => Option::None,
    }
}

/// Digit values never shrink as digits are appended, and a bad prefix
/// spoils the whole string.
proof fn lemma_digits_prefix(s: Seq<char>, i: int)
    requires
        1 <= i <= s.len(),
    ensures
        digits_val(s.take(i)) is None ==> digits_val(s) is None,
        (match digits_val(s.take(i)) {
            Option::Some(v) => v >= 0 && (match digits_val(s) {
                Option::Some(w) => w >= v,
                Option::None => true,
            }),
            Option::None => true,
        }),
    decreases s.len() - i,
{
    if i == s.len() {
        assert(s.take(i) =~= s);
        if digits_val(s) is Some {
            lemma_digits_nonneg(s);
        }
    } else {
        lemma_digits_prefix(s, i + 1);
        assert(s.take(i + 1).drop_last() =~= s.take(i));
        assert(s.take(i + 1).last() == s[i]);
        if digits_val(s.take(i)) is Some {
            lemma_digits_nonneg(s.take(i));
        }
    }
}

/// A digit value is never negative.
proof fn lemma_digits_nonneg(s: Seq<char>)
    requires
        digits_val(s) is Some,
    ensures
        digits_val(s).unwrap() >= 0,
    decreases s.len(),
{
    if s.len() > 1 {
        lemma_digits_nonneg(s.drop_last());
    }
}

/// Reads an HTTP status code from a digit string.
fn parse_code_str(s: &str) -> (r: Option<u16>)
    ensures
        r == parse_code(s@),
{
    let n = s.unicode_len();
    if n == 0 {
        return Option::None;
    }
    let mut acc: u64 = 0;
    let mut i: usize = 0;
    while i < n
        invariant
            i <= n,
            n == s@.len(),
            n > 0,
            acc <= 65535,
            i == 0 ==> acc == 0,
            i >= 1 ==> digits_val(s@.take(i as int)) == Option::Some(acc as int),
        decreases n - i,
    {
        let c = s.get_char(i);
        match crate::codec::char_digit_val(c) {
            Option::Some(d) => {
                proof {
                    assert(s@.take(i as int + 1).last() == s@[i as int]);
                    assert(s@.take(i as int + 1).drop_last() =~= s@.take(i as int));
                }
                if i == 0 {
                    acc = d;
                    proof {
                        assert(s@.take(1).len() == 1);
                    }
                } else {
                    acc = acc * 10 + d;
                }
                if acc > 65535 {
                    proof {
                        lemma_digits_prefix(s@, i as int + 1);
                    }
                    return Option::None;
                }
            },
            Option::None => {
                proof {
                    assert(s@.take(i as int + 1).last() == s@[i as int]);
                    assert(s@.take(i as int + 1).drop_last() =~= s@.take(i as int));
                    assert(digits_val(s@.take(i as int + 1)) is None);
                    lemma_digits_prefix(s@, i as int + 1);
                }
                return Option::None;
            },
        }
        i = i + 1;
    }
    proof {
        assert(s@.take(n as int) =~= s@);
    }
    Option::Some(acc as u16)
}

/// A response body clipped to 500 characters for a summary.
pub open spec fn clipped_body(s: Seq<char>) -> Seq<char> {
    if s.len() <= 500 {
        s
    } else {
        s.take(500)
    }
}

/// The one-line summary of an HTTP exchange.
pub open spec fn http_message(code: u16, body: Seq<char>) -> Seq<char> {
    "HTTP "@ + crate::text::dec_digits(code as nat) + " — "@ + clipped_body(body)
}

/// How the shell result of an HTTP command classifies: when the command
/// itself succeeded and printed output, the final line carries the
/// status code — 200 to 299 is a success with a clipped body summary,
/// anything else a failure with the same summary; when no status code
/// can be read, the shell classification passes through unchanged.
pub open spec fn spec_http_result(
    status: StepStatus,
    output: Option<Seq<char>>,
    error: Option<Seq<char>>,
) -> (StepStatus, Option<Seq<char>>, Option<Seq<char>>) {
    if status is Success && output is Some {
        let lines = split_lines(trimmed(output.unwrap()));
        if lines.len() > 0 && parse_code(trimmed(lines.last())) is Some {
            let code = parse_code(trimmed(lines.last())).unwrap();
            let body = joined_nl(lines.drop_last());
            if 200 <= code < 300 {
                (StepStatus::Success, Option::Some(http_message(code, body)), Option::None)
            } else {
                (StepStatus::Failed, Option::None, Option::Some(http_message(code, body)))
            }
        } else {
            (status, output, error)
        }
    } else {
        (status, output, error)
    }
}

/// Classifies the shell result of an HTTP command.
pub fn http_result(status: StepStatus, output: &Option<String>, error: &Option<String>) -> (r: (
    StepStatus,
    Option<String>,
    Option<String>,
))
    ensures
        (r.0, r.1.deep_view(), r.2.deep_view()) == spec_http_result(
            status,
            output.deep_view(),
            error.deep_view(),
        ),
{
    let passthrough_needed: bool = !(matches!(status, StepStatus::Success) && output.is_some());
    if !passthrough_needed {
        let out = match output {
            Option::Some(o) => o,
            Option::None => {
                return (status, crate::model::dup_opt_string(output), crate::model::dup_opt_string(error));
            },
        };
        let t = trim_str(out.as_str());
        let lines = lines_of(t.as_str());
        if lines.len() > 0 {
            proof {
                assert(lines.deep_view()[lines@.len() - 1] == lines@[lines@.len() - 1]@);
                assert(lines.deep_view().last() == lines@[lines@.len() - 1]@);
            }
            let last_line = trim_str(lines[lines.len() - 1].as_str());
            match parse_code_str(last_line.as_str()) {
                Option::Some(code) => {
                    let body = join_first_lines(&lines, lines.len() - 1);
                    proof {
                        assert(lines.deep_view().take(lines@.len() - 1) =~= lines.deep_view().drop_last());
                    }
                    let clipped: String = if body.unicode_len() <= 500 {
                        body
                    } else {
                        body.as_str().substring_char(0, 500).to_owned()
                    };
                    let mut m = String::from_str("HTTP ");
                    crate::text::push_u64(&mut m, code as u64);
                    m.append(" — ");
                    m.append(clipped.as_str());
                    proof {
                        assert(m@ =~= http_message(
                            code,
                            joined_nl(split_lines(trimmed(out@)).drop_last()),
                        ));
                    }
                    if 200 <= code && code < 300 {
                        (StepStatus::Success, Option::Some(m), Option::None)
                    } else {
                        (StepStatus::Failed, Option::None, Option::Some(m))
                    }
                },
                Option::None => (
                    status,
                    crate::model::dup_opt_string(output),
                    crate::model::dup_opt_string(error),
                ),
            }
        } else {
            (status, crate::model::dup_opt_string(output), crate::model::dup_opt_string(error))
        }
    } else {
        (status, crate::model::dup_opt_string(output), crate::model::dup_opt_string(error))
    }
}

} // verus!
