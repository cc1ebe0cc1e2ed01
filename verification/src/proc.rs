//! Child processes, as far as they are values: what was run, what came back,
//! and when to stop waiting.
//!
//! Arguments are always passed as an explicit list. Nothing is concatenated
//! into a shell string, so a monitor name or serial containing a quote or a
//! semicolon cannot turn into a second command.

use vstd::prelude::*;

use crate::digits::{
    dec, dec_padded, decimal, decimal_padded, law_a_number_is_worth_its_digits,
    law_zeros_before_a_number_add_nothing, worth,
};
use crate::paths::{join_path, joins, relative_name};
use crate::text::{
    cat2, cat3, cat4, cat5, chars_of, contains_char, copy_texts, has_text, lemma_has_text_between,
    lemma_has_text_within, repeated, strip_end, stripped_end, string_of, texts,
};

verus! {

#[derive(Debug, PartialEq, Eq)]
pub enum ProcError {
    NotFound(String),
    Launch { program: String, detail: String },
    Timeout { program: String, timeout_ms: u64 },
    Output { program: String, detail: String },
}

pub enum ProcErrorView {
    NotFound(Seq<char>),
    Launch { program: Seq<char>, detail: Seq<char> },
    Timeout { program: Seq<char>, timeout_ms: u64 },
    Output { program: Seq<char>, detail: Seq<char> },
}

impl DeepView for ProcError {
    type V = ProcErrorView;

    open spec fn deep_view(&self) -> ProcErrorView {
        match self {
            ProcError::NotFound(p) => ProcErrorView::NotFound(p@),
            ProcError::Launch { program, detail } => ProcErrorView::Launch {
                program: program@,
                detail: detail@,
            },
            ProcError::Timeout { program, timeout_ms } => ProcErrorView::Timeout {
                program: program@,
                timeout_ms: *timeout_ms,
            },
            ProcError::Output { program, detail } => ProcErrorView::Output {
                program: program@,
                detail: detail@,
            },
        }
    }
}

/// A time in seconds: whole seconds, and as many decimals as are not zero.
pub open spec fn seconds_text(ms: nat) -> Seq<char> {
    if ms % 1000 == 0 {
        decimal(ms / 1000)
    } else {
        decimal(ms / 1000) + "."@ + stripped_end(decimal_padded(ms % 1000, 3), '0')
    }
}

pub fn seconds(ms: u64) -> (r: String)
    ensures
        r@ == seconds_text(ms as nat),
{
    let whole = dec(ms / 1000);
    if ms % 1000 == 0 {
        whole
    } else {
        let part = dec_padded((ms % 1000) as u32, 3);
        let cs = chars_of(part.as_str());
        let kept = string_of(strip_end(cs.as_slice(), '0'));
        cat3(whole.as_str(), ".", kept.as_str())
    }
}

impl ProcErrorView {
    pub open spec fn message(self) -> Seq<char> {
        match self {
            ProcErrorView::NotFound(p) => "executable not found: "@ + p,
            ProcErrorView::Launch { program, detail } => "could not launch `"@ + program + "`: "@
                + detail,
            ProcErrorView::Timeout { program, timeout_ms } => "`"@ + program
                + "` did not finish within "@ + seconds_text(timeout_ms as nat)
                + "s and was killed"@,
            ProcErrorView::Output { program, detail } => "could not read output of `"@ + program
                + "`: "@ + detail,
        }
    }
}

impl ProcError {
    pub fn to_string(&self) -> (r: String)
        ensures
            r@ == self.deep_view().message(),
    {
        match self {
            ProcError::NotFound(p) => cat2("executable not found: ", p.as_str()),
            ProcError::Launch { program, detail } => cat4(
                "could not launch `",
                program.as_str(),
                "`: ",
                detail.as_str(),
            ),
            ProcError::Timeout { program, timeout_ms } => cat5(
                "`",
                program.as_str(),
                "` did not finish within ",
                seconds(*timeout_ms).as_str(),
                "s and was killed",
            ),
            ProcError::Output { program, detail } => cat4(
                "could not read output of `",
                program.as_str(),
                "`: ",
                detail.as_str(),
            ),
        }
    }
}

/// A completed child process, with everything needed to diagnose it later.
#[derive(Debug, PartialEq, Eq)]
pub struct CommandRun {
    pub program: String,
    pub args: Vec<String>,
    /// `None` when the process was terminated by a signal.
    pub status: Option<i32>,
    pub stdout: String,
    pub stderr: String,
    pub duration_ms: u64,
}

pub struct CommandRunView {
    pub program: Seq<char>,
    pub args: Seq<Seq<char>>,
    pub status: Option<i32>,
    pub stdout: Seq<char>,
    pub stderr: Seq<char>,
    pub duration_ms: u64,
}

impl DeepView for CommandRun {
    type V = CommandRunView;

    open spec fn deep_view(&self) -> CommandRunView {
        CommandRunView {
            program: self.program@,
            args: texts(self.args@),
            status: self.status,
            stdout: self.stdout@,
            stderr: self.stderr@,
            duration_ms: self.duration_ms,
        }
    }
}

impl Clone for CommandRun {
    fn clone(&self) -> (r: Self)
        ensures
            r.deep_view() == self.deep_view(),
    {
        CommandRun {
            program: self.program.clone(),
            args: copy_texts(&self.args),
            status: self.status,
            stdout: self.stdout.clone(),
            stderr: self.stderr.clone(),
            duration_ms: self.duration_ms,
        }
    }
}

/// One argument as a log shows it: in quotes when it holds a space.
pub open spec fn shown_argument(a: Seq<char>) -> Seq<char> {
    if a.contains(' ') {
        " \""@ + a + "\""@
    } else {
        " "@ + a
    }
}

/// A program and its arguments as a log shows them.
pub open spec fn shown_command(program: Seq<char>, args: Seq<Seq<char>>) -> Seq<char>
    decreases args.len(),
{
    if args.len() == 0 {
        program
    } else {
        shown_command(program, args.drop_last()) + shown_argument(args.last())
    }
}

impl CommandRunView {
    pub open spec fn success(self) -> bool {
        self.status == Some(0i32)
    }

    pub open spec fn command(self) -> Seq<char> {
        shown_command(self.program, self.args)
    }
}

impl CommandRun {
    pub fn success(&self) -> (r: bool)
        ensures
            r == self.deep_view().success(),
    {
        match self.status {
            Some(code) => code == 0,
            None => false,
        }
    }

    /// A shell-safe rendering for logs and error messages. Never executed.
    pub fn display_command(&self) -> (r: String)
        ensures
            r@ == self.deep_view().command(),
    {
        let mut out = self.program.clone();
        let mut i: usize = 0;
        let ghost all = texts(self.args@);
        assert(all.take(0) =~= Seq::<Seq<char>>::empty());
        while i < self.args.len()
            invariant
                i <= self.args.len(),
                all == texts(self.args@),
                out@ == shown_command(self.program@, all.take(i as int)),
            decreases self.args.len() - i,
        {
            let a: &str = self.args[i].as_str();
            assert(all.take(i as int + 1).drop_last() =~= all.take(i as int));
            assert(all.take(i as int + 1).last() == a@);
            let cs = chars_of(a);
            let shown = if contains_char(cs.as_slice(), ' ') {
                cat3(" \"", a, "\"")
            } else {
                cat2(" ", a)
            };
            out.append(shown.as_str());
            i += 1;
        }
        assert(all.take(all.len() as int) =~= all);
        out
    }
}

// ---------------------------------------------------------------------------
// Running a child
// ---------------------------------------------------------------------------

/// What to do with a child that has just been looked at.
#[derive(Debug, Clone, Copy, PartialEq, Eq, Structural)]
pub enum Wait {
    /// It has ended.
    Ended,
    /// It has outrun its time: kill it.
    Kill,
    /// Look again after this many milliseconds.
    Sleep(u64),
}

/// How long to sleep between two looks at a child.
pub const POLL_MS: u64 = 20;

/// Decides what to do with a child: an ended one is never killed, and one that
/// still runs is killed once its time is up.
pub fn wait_step(ended: bool, elapsed_ms: u64, timeout_ms: u64) -> (r: Wait)
    ensures
        r == (if ended {
            Wait::Ended
        } else if elapsed_ms >= timeout_ms {
            Wait::Kill
        } else {
            Wait::Sleep(POLL_MS)
        }),
{
    if ended {
        Wait::Ended
    } else if elapsed_ms >= timeout_ms {
        Wait::Kill
    } else {
        Wait::Sleep(POLL_MS)
    }
}

/// The error for a child that could not be started.
pub fn launch_error(program: &str, not_found: bool, detail: &str) -> (r: ProcError)
    ensures
        r.deep_view() == (if not_found {
            ProcErrorView::NotFound(program@)
        } else {
            ProcErrorView::Launch { program: program@, detail: detail@ }
        }),
{
    if not_found {
        ProcError::NotFound(program.to_owned())
    } else {
        ProcError::Launch { program: program.to_owned(), detail: detail.to_owned() }
    }
}

/// The result of a child that was started: `ended` is its exit status, or
/// nothing when it was killed for outrunning its time.
pub fn completed(
    program: &str,
    args: &Vec<String>,
    ended: Option<Option<i32>>,
    stdout: &str,
    stderr: &str,
    duration_ms: u64,
    timeout_ms: u64,
) -> (r: Result<CommandRun, ProcError>)
    ensures
        match ended {
            None => r matches Err(e) && e.deep_view() == (ProcErrorView::Timeout {
                program: program@,
                timeout_ms,
            }),
            Some(status) => r matches Ok(run) && run.deep_view() == (CommandRunView {
                program: program@,
                args: texts(args@),
                status,
                stdout: stdout@,
                stderr: stderr@,
                duration_ms,
            }),
        },
{
    match ended {
        None => Err(ProcError::Timeout { program: program.to_owned(), timeout_ms }),
        Some(status) => Ok(
            CommandRun {
                program: program.to_owned(),
                args: copy_texts(args),
                status,
                stdout: stdout.to_owned(),
                stderr: stderr.to_owned(),
                duration_ms,
            },
        ),
    }
}

/// `s` with every carriage return before a line feed taken out.
pub open spec fn unix_newlines(s: Seq<char>) -> Seq<char>
    decreases s.len(),
{
    if s.len() == 0 {
        s
    } else if s.len() >= 2 && s[0] == '\r' && s[1] == '\n' {
        unix_newlines(s.skip(1))
    } else {
        seq![s[0]] + unix_newlines(s.skip(1))
    }
}

/// What a child printed, with line feeds as the only line endings.
pub fn normalise_newlines(s: &str) -> (r: String)
    ensures
        r@ == unix_newlines(s@),
{
    let cs = chars_of(s);
    let mut out = String::new();
    let mut i: usize = 0;
    assert(s@.skip(0) =~= s@);
    assert(out@ + unix_newlines(s@) =~= unix_newlines(s@));
    while i < cs.len()
        invariant
            cs@ == s@,
            i <= cs.len(),
            out@ + unix_newlines(s@.skip(i as int)) == unix_newlines(s@),
        decreases cs.len() - i,
    {
        let ghost rest = s@.skip(i as int);
        assert(rest.skip(1) =~= s@.skip(i as int + 1));
        assert(rest[0] == s@[i as int]);
        if i + 1 < cs.len() {
            assert(rest[1] == s@[i as int + 1]);
        }
        let drops = cs[i] == '\r' && i + 1 < cs.len() && cs[i + 1] == '\n';
        if !drops {
            let ghost before = out@;
            out.push(cs[i]);
            assert(before + (seq![rest[0]] + unix_newlines(rest.skip(1))) =~= out@
                + unix_newlines(rest.skip(1)));
        }
        i += 1;
    }
    assert(s@.skip(s@.len() as int) =~= Seq::<char>::empty());
    assert(out@ + Seq::<char>::empty() =~= out@);
    out
}

/// The file names under which a program may stand in a directory, in the
/// order in which they are looked for.
pub open spec fn executable_files(name: Seq<char>, on_windows: bool) -> Seq<Seq<char>> {
    if on_windows {
        seq![name + ".exe"@, name]
    } else {
        seq![name]
    }
}

/// The file names under which a program may stand in a directory.
pub fn executable_names(name: &str, on_windows: bool) -> (r: Vec<String>)
    ensures
        texts(r@) == executable_files(name@, on_windows),
{
    let mut out: Vec<String> = Vec::new();
    if on_windows {
        out.push(cat2(name, ".exe"));
    }
    out.push(name.to_owned());
    assert(texts(out@) =~= executable_files(name@, on_windows));
    out
}

// ---------------------------------------------------------------------------
// Handing a command to whatever runs it
// ---------------------------------------------------------------------------

pub open spec fn run_answer(out: Result<CommandRun, ProcError>) -> Result<
    CommandRunView,
    ProcErrorView,
> {
    match out {
        Ok(run) => Ok(run.deep_view()),
        Err(e) => Err(e.deep_view()),
    }
}

/// `run` takes any arguments.
pub open spec fn runs_anything<R: Fn(&Vec<String>) -> Result<CommandRun, ProcError>>(
    run: R,
) -> bool {
    forall|args: Vec<String>| #[trigger] call_requires(run, (&args,))
}

/// `run` was handed these arguments and answered this.
pub open spec fn ran<R: Fn(&Vec<String>) -> Result<CommandRun, ProcError>>(
    run: R,
    args: Seq<Seq<char>>,
    answer: Result<CommandRunView, ProcErrorView>,
) -> bool {
    exists|v: Vec<String>, out: Result<CommandRun, ProcError>|
        texts(v@) == args && run_answer(out) == answer && #[trigger] call_ensures(run, (&v,), out)
}

// ---------------------------------------------------------------------------
// Finding programs
// ---------------------------------------------------------------------------

/// Whether a look at a path can have told that a file is there, or that none
/// is.
pub open spec fn looked_at<F: Fn(&str) -> bool>(is_file: F, path: Seq<char>, there: bool) -> bool {
    exists|s: &str| s@ == path && #[trigger] call_ensures(is_file, (s,), there)
}

/// Where a program by this file name would be in a directory. A name of more
/// than one step may lead elsewhere.
pub open spec fn place_in(path: Seq<char>, dir: Seq<char>, file: Seq<char>) -> bool {
    relative_name(file) ==> joins(path, dir, file)
}

/// A program by this file name was looked for in a directory, and was not
/// there.
pub open spec fn absent<F: Fn(&str) -> bool>(is_file: F, dir: Seq<char>, file: Seq<char>) -> bool {
    exists|path: Seq<char>| #[trigger] place_in(path, dir, file) && looked_at(is_file, path, false)
}

/// A program by this file name is in a directory, at this path.
pub open spec fn present<F: Fn(&str) -> bool>(
    is_file: F,
    dir: Seq<char>,
    file: Seq<char>,
    path: Seq<char>,
) -> bool {
    place_in(path, dir, file) && looked_at(is_file, path, true)
}

/// A program was looked for in a directory under each of its file names, and
/// was not there.
pub open spec fn nowhere_in<F: Fn(&str) -> bool>(
    is_file: F,
    dir: Seq<char>,
    files: Seq<Seq<char>>,
) -> bool {
    forall|e: int|
        0 <= e < files.len() ==> absent(is_file, dir, #[trigger] files[e])
}

/// A path is the first of a program's file names that is in a directory.
pub open spec fn first_in<F: Fn(&str) -> bool>(
    is_file: F,
    dir: Seq<char>,
    files: Seq<Seq<char>>,
    path: Seq<char>,
) -> bool {
    exists|e: int|
        {
            &&& 0 <= e < files.len()
            &&& present(is_file, dir, #[trigger] files[e], path)
            &&& nowhere_in(is_file, dir, files.take(e))
        }
}

fn find_in<F: Fn(&str) -> bool>(
    dir: &str,
    files: &Vec<String>,
    is_file: &F,
) -> (r: Option<String>)
    requires
        forall|s: &str| #[trigger] call_requires(*is_file, (s,)),
    ensures
        match r {
            Some(path) => first_in(*is_file, dir@, texts(files@), path@),
            None => nowhere_in(*is_file, dir@, texts(files@)),
        },
{
    let ghost all = texts(files@);
    let mut e: usize = 0;
    while e < files.len()
        invariant
            e <= files@.len(),
            all == texts(files@),
            forall|s: &str| #[trigger] call_requires(*is_file, (s,)),
            forall|k: int| 0 <= k < e ==> absent(*is_file, dir@, #[trigger] all[k]),
        decreases files@.len() - e,
    {
        assert(all[e as int] == files@[e as int]@);
        let path = join_path(dir, files[e].as_str());
        assert(place_in(path@, dir@, all[e as int]));
        if is_file(path.as_str()) {
            assert(looked_at(*is_file, path@, true));
            assert(present(*is_file, dir@, all[e as int], path@));
            assert forall|k: int| 0 <= k < e implies absent(
                *is_file,
                dir@,
                #[trigger] all.take(e as int)[k],
            ) by {
                assert(all.take(e as int)[k] == all[k]);
            }
            return Some(path);
        }
        assert(looked_at(*is_file, path@, false));
        assert(absent(*is_file, dir@, all[e as int]));
        e += 1;
    }
    None
}

/// A path is the first place a program is at, in these directories in order.
pub open spec fn first_of_dirs<F: Fn(&str) -> bool>(
    is_file: F,
    dirs: Seq<Seq<char>>,
    files: Seq<Seq<char>>,
    path: Seq<char>,
) -> bool {
    exists|d: int|
        {
            &&& 0 <= d < dirs.len()
            &&& first_in(is_file, #[trigger] dirs[d], files, path)
            &&& forall|k: int|
                0 <= k < d ==> nowhere_in(is_file, #[trigger] dirs[k], files)
        }
}

fn find_in_dirs<F: Fn(&str) -> bool>(
    dirs: &Vec<String>,
    files: &Vec<String>,
    is_file: &F,
) -> (r: Option<String>)
    requires
        forall|s: &str| #[trigger] call_requires(*is_file, (s,)),
    ensures
        match r {
            Some(path) => first_of_dirs(
                *is_file,
                texts(dirs@),
                texts(files@),
                path@,
            ),
            None => forall|d: int|
                0 <= d < dirs@.len() ==> nowhere_in(
                    *is_file,
                    #[trigger] texts(dirs@)[d],
                    texts(files@),
                ),
        },
{
    let ghost all = texts(dirs@);
    let mut d: usize = 0;
    while d < dirs.len()
        invariant
            d <= dirs@.len(),
            all == texts(dirs@),
            forall|s: &str| #[trigger] call_requires(*is_file, (s,)),
            forall|k: int|
                0 <= k < d ==> nowhere_in(*is_file, #[trigger] all[k], texts(files@)),
        decreases dirs@.len() - d,
    {
        assert(all[d as int] == dirs@[d as int]@);
        match find_in(dirs[d].as_str(), files, is_file) {
            Some(path) => {
                assert(first_in(*is_file, all[d as int], texts(files@), path@));
                return Some(path);
            },
            None => {},
        }
        d += 1;
    }
    None
}

/// Finds a program: in `extra_dirs` first, then in the directories of the
/// search path.
pub fn find_executable<F: Fn(&str) -> bool>(
    name: &str,
    on_windows: bool,
    extra_dirs: &Vec<String>,
    path_dirs: &Vec<String>,
    is_file: &F,
) -> (r: Option<String>)
    requires
        forall|s: &str| #[trigger] call_requires(*is_file, (s,)),
    ensures
        match r {
            Some(path) => first_of_dirs(
                *is_file,
                texts(extra_dirs@) + texts(path_dirs@),
                executable_files(name@, on_windows),
                path@,
            ),
            None => forall|d: int|
                0 <= d < extra_dirs@.len() + path_dirs@.len() ==> nowhere_in(
                    *is_file,
                    #[trigger] (texts(extra_dirs@) + texts(path_dirs@))[d],
                    executable_files(name@, on_windows),
                ),
        },
{
    let ghost a = texts(extra_dirs@);
    let ghost b = texts(path_dirs@);
    let files = executable_names(name, on_windows);
    let ghost sx = executable_files(name@, on_windows);
    if let Some(path) = find_in_dirs(extra_dirs, &files, is_file) {
        proof {
            let d = choose|d: int|
                {
                    &&& 0 <= d < a.len()
                    &&& first_in(*is_file, #[trigger] a[d], sx, path@)
                    &&& forall|k: int|
                        0 <= k < d ==> nowhere_in(*is_file, #[trigger] a[k], sx)
                };
            assert((a + b)[d] == a[d]);
            assert forall|k: int| 0 <= k < d implies nowhere_in(
                *is_file,
                #[trigger] (a + b)[k],
                sx,
            ) by {
                assert((a + b)[k] == a[k]);
            }
        }
        return Some(path);
    }
    match find_in_dirs(path_dirs, &files, is_file) {
        Some(path) => {
            proof {
                let d = choose|d: int|
                    {
                        &&& 0 <= d < b.len()
                        &&& first_in(*is_file, #[trigger] b[d], sx, path@)
                        &&& forall|k: int|
                            0 <= k < d ==> nowhere_in(*is_file, #[trigger] b[k], sx)
                    };
                assert((a + b)[a.len() + d] == b[d]);
                assert forall|k: int| 0 <= k < a.len() + d implies nowhere_in(
                    *is_file,
                    #[trigger] (a + b)[k],
                    sx,
                ) by {
                    if k < a.len() {
                        assert((a + b)[k] == a[k]);
                    } else {
                        assert((a + b)[k] == b[k - a.len()]);
                    }
                }
            }
            Some(path)
        },
        None => {
            proof {
                assert forall|d: int| 0 <= d < a.len() + b.len() implies nowhere_in(
                    *is_file,
                    #[trigger] (a + b)[d],
                    sx,
                ) by {
                    if d < a.len() {
                        assert((a + b)[d] == a[d]);
                    } else {
                        assert((a + b)[d] == b[d - a.len()]);
                    }
                }
            }
            None
        },
    }
}

// ---------------------------------------------------------------------------
// Laws of commands
// ---------------------------------------------------------------------------

/// Taking off an ending takes off only that character, all of them.
proof fn lemma_ending_taken_off(s: Seq<char>, c: char)
    ensures
        stripped_end(s, c).len() <= s.len(),
        s == stripped_end(s, c) + repeated(c, (s.len() - stripped_end(s, c).len()) as nat),
        stripped_end(s, c).len() > 0 ==> stripped_end(s, c).last() != c,
    decreases s.len(),
{
    if s.len() > 0 && s.last() == c {
        let front = s.drop_last();
        let kept = stripped_end(front, c);
        lemma_ending_taken_off(front, c);
        let all = kept + repeated(c, (s.len() - kept.len()) as nat);
        assert forall|i: int| 0 <= i < s.len() implies s[i] == all[i] by {
            if i < front.len() {
                assert(front[i] == (kept + repeated(c, (front.len() - kept.len()) as nat))[i]);
            }
        }
    }
    assert(s =~= stripped_end(s, c) + repeated(c, (s.len() - stripped_end(s, c).len()) as nat));
}

/// A time is told in seconds, exactly: the whole ones, and what is left of
/// them in as many decimals as it takes, and no more.
pub proof fn law_seconds_are_told_exactly(ms: nat) -> (rest: Seq<char>)
    ensures
        ms % 1000 == 0 ==> seconds_text(ms) == decimal(ms / 1000),
        ms % 1000 != 0 ==> {
            &&& seconds_text(ms) == decimal(ms / 1000) + seq!['.'] + rest
            &&& 1 <= rest.len() <= 3
            &&& rest.last() != '0'
            &&& worth(rest + repeated('0', (3 - rest.len()) as nat), 10) == ms % 1000
        },
{
    let r = ms % 1000;
    let rest = stripped_end(decimal_padded(r, 3), '0');
    if r != 0 {
        reveal_strlit(".");
        assert("."@ =~= seq!['.']);
        lemma_ending_taken_off(decimal_padded(r, 3), '0');
        law_a_number_is_worth_its_digits(r, 10);
        law_zeros_before_a_number_add_nothing(decimal(r), 3, 10);
        assert(decimal(r).len() <= 3) by {
            reveal_with_fuel(crate::digits::numeral, 4);
        }
        assert(decimal_padded(r, 3).len() == 3);
        assert(worth(decimal_padded(r, 3), 10) == r);
        if rest.len() == 0 {
            assert(decimal_padded(r, 3) =~= seq!['0', '0', '0']);
            reveal_with_fuel(crate::digits::worth_behind, 4);
            let z = seq!['0', '0', '0'];
            assert(z.skip(1)[0] == '0' && z.skip(1).skip(1)[0] == '0');
            assert(z.skip(1).skip(1).skip(1) =~= Seq::<char>::empty());
            assert(worth(z, 10) == 0);
        }
    }
    rest
}

/// A shown command begins with the program and shows every argument behind a
/// blank, in quotation marks exactly where it has a blank in it.
pub proof fn law_a_command_shows_every_argument(
    program: Seq<char>,
    args: Seq<Seq<char>>,
    i: int,
)
    requires
        0 <= i < args.len(),
    ensures
        program.is_prefix_of(shown_command(program, args)),
        args[i].contains(' ') ==> has_text(
            shown_command(program, args),
            seq![' ', '"'] + args[i] + seq!['"'],
        ),
        !args[i].contains(' ') ==> has_text(shown_command(program, args), seq![' '] + args[i]),
    decreases args.len(),
{
    let front = shown_command(program, args.drop_last());
    let shown = shown_command(program, args);
    reveal_strlit(" \"");
    reveal_strlit("\"");
    reveal_strlit(" ");
    assert(" \""@ =~= seq![' ', '"']);
    assert("\""@ =~= seq!['"']);
    assert(" "@ =~= seq![' ']);
    let wanted = if args[i].contains(' ') {
        seq![' ', '"'] + args[i] + seq!['"']
    } else {
        seq![' '] + args[i]
    };
    assert(wanted == shown_argument(args[i]));
    if args.len() == 1 {
        assert(front == program);
        assert(shown.subrange(0, program.len() as int) =~= program);
    } else {
        lemma_begins_with_program(program, args);
    }
    if i == args.len() - 1 {
        lemma_has_text_between(front, wanted, Seq::empty());
        assert(front + wanted =~= shown);
    } else {
        law_a_command_shows_every_argument(program, args.drop_last(), i);
        assert(args.drop_last()[i] == args[i]);
        lemma_has_text_within(Seq::empty(), front, shown_argument(args.last()), wanted);
    }
}

proof fn lemma_begins_with_program(program: Seq<char>, args: Seq<Seq<char>>)
    ensures
        program.is_prefix_of(shown_command(program, args)),
    decreases args.len(),
{
    let shown = shown_command(program, args);
    if args.len() > 0 {
        lemma_begins_with_program(program, args.drop_last());
        let front = shown_command(program, args.drop_last());
        assert(front.subrange(0, program.len() as int) == program);
        assert(shown.subrange(0, program.len() as int) =~= program);
    } else {
        assert(shown.subrange(0, program.len() as int) =~= program);
    }
}

/// Every carriage return before a line feed goes, and nothing else does.
pub proof fn law_line_ends_become_line_feeds(a: Seq<char>, b: Seq<char>)
    ensures
        unix_newlines(a + seq!['\r', '\n'] + b) == unix_newlines(a) + seq!['\n'] + unix_newlines(b),
        (forall|i: int| 0 <= i < a.len() - 1 ==> !(#[trigger] a[i] == '\r' && a[i + 1] == '\n'))
            ==> unix_newlines(a) == a,
    decreases a.len(),
{
    let s = a + seq!['\r', '\n'] + b;
    if a.len() == 0 {
        assert(a =~= Seq::empty());
        assert(s[0] == '\r' && s[1] == '\n');
        let rest = s.skip(1);
        assert(rest =~= seq!['\n'] + b);
        assert(rest[0] == '\n');
        assert(rest.skip(1) =~= b);
        assert(unix_newlines(rest) == seq!['\n'] + unix_newlines(b));
        assert(unix_newlines(a) + seq!['\n'] + unix_newlines(b) =~= seq!['\n'] + unix_newlines(b));
    } else {
        let tail = a.skip(1);
        law_line_ends_become_line_feeds(tail, b);
        assert(s.skip(1) =~= tail + seq!['\r', '\n'] + b);
        assert(s[0] == a[0]);
        if a.len() > 1 {
            assert(s[1] == a[1]);
        } else {
            assert(s[1] == '\r');
        }
        assert(unix_newlines(s) =~= unix_newlines(a) + seq!['\n'] + unix_newlines(b));
        if forall|i: int| 0 <= i < a.len() - 1 ==> !(#[trigger] a[i] == '\r' && a[i + 1] == '\n') {
            assert forall|i: int| 0 <= i < tail.len() - 1 implies !(#[trigger] tail[i] == '\r'
                && tail[i + 1] == '\n') by {
                assert(tail[i] == a[i + 1] && tail[i + 1] == a[i + 2]);
            }
            if a.len() > 1 {
                assert(!(a[0] == '\r' && a[1] == '\n'));
            }
            assert(unix_newlines(a) =~= a);
        }
    }
}

/// A command succeeded exactly where it ended with the status nought: one that
/// was killed has none.
pub proof fn law_success_is_the_status_nought(run: CommandRunView)
    ensures
        run.success() <==> (run.status matches Some(code) && code == 0),
        run.status is None ==> !run.success(),
{
}

/// An executable goes by its bare name, and on Windows first by that name with
/// the ending of one.
pub proof fn law_an_executable_goes_by_its_name(name: Seq<char>, on_windows: bool)
    ensures
        executable_files(name, on_windows).last() == name,
        executable_files(name, on_windows).len() == if on_windows {
            2int
        } else {
            1
        },
        on_windows ==> executable_files(name, on_windows)[0] == name + seq!['.', 'e', 'x', 'e'],
{
    reveal_strlit(".exe");
    assert(".exe"@ =~= seq!['.', 'e', 'x', 'e']);
}

} // verus!
