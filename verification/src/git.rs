//! Reading what a `git` command reported: whether the tool runs inside a
//! work tree, and the text a command printed.

use vstd::prelude::*;
use vstd::utf8::{decode_utf8, valid_utf8};
use vstd::string::StrSliceExecFns;

verus! {

/// How a `git` command went.
#[derive(Debug)]
pub enum GitOutcome {
    /// The process could not be started.
    NotStarted,
    /// The process ran; `success` is its exit status, `stdout` what it
    /// printed (empty where the output was not captured).
    Finished { success: bool, stdout: Vec<u8> },
}

/// The text that `String::from_utf8_lossy` makes of some bytes.
pub uninterp spec fn lossy_text(bytes: Seq<u8>) -> Seq<char>;

/// Calls `String::from_utf8_lossy` and takes ownership of the text. The
/// contract names the result, and states what the documentation says of
/// valid input: it is decoded as it is. How invalid sequences are
/// replaced is left unsaid.
#[verifier::external_body]
fn utf8_lossy(bytes: &[u8]) -> (text: String)
    ensures
        text@ == lossy_text(bytes@),
        valid_utf8(bytes@) ==> text@ == decode_utf8(bytes@),
{
    String::from_utf8_lossy(bytes).into_owned()
}

/// A character with the Unicode `White_Space` property, the whitespace
/// of `char::is_whitespace` and `str::trim`.
pub open spec fn is_white_space(c: char) -> bool {
    ||| '\u{9}' <= c <= '\u{d}'
    ||| c == ' '
    ||| c == '\u{85}'
    ||| c == '\u{a0}'
    ||| c == '\u{1680}'
    ||| '\u{2000}' <= c <= '\u{200a}'
    ||| c == '\u{2028}'
    ||| c == '\u{2029}'
    ||| c == '\u{202f}'
    ||| c == '\u{205f}'
    ||| c == '\u{3000}'
}

/// A text without its leading whitespace.
pub open spec fn trim_start(s: Seq<char>) -> Seq<char>
    decreases s.len(),
{
    if s.len() > 0 && is_white_space(s[0]) {
        trim_start(s.drop_first())
    } else {
        s
    }
}

/// A text without its trailing whitespace.
pub open spec fn trim_end(s: Seq<char>) -> Seq<char>
    decreases s.len(),
{
    if s.len() > 0 && is_white_space(s.last()) {
        trim_end(s.drop_last())
    } else {
        s
    }
}

/// A text without its leading and trailing whitespace.
pub open spec fn trimmed(s: Seq<char>) -> Seq<char> {
    trim_end(trim_start(s))
}

/// Whether a character has the Unicode `White_Space` property.
fn is_white_space_char(c: char) -> (b: bool)
    ensures
        b == is_white_space(c),
{
    ('\u{9}' <= c && c <= '\u{d}') || c == ' ' || c == '\u{85}' || c == '\u{a0}' || c
        == '\u{1680}' || ('\u{2000}' <= c && c <= '\u{200a}') || c == '\u{2028}' || c
        == '\u{2029}' || c == '\u{202f}' || c == '\u{205f}' || c == '\u{3000}'
}

/// The text without its leading and trailing whitespace, as `str::trim`
/// gives it.
fn trim_text(s: &str) -> (t: &str)
    ensures
        t@ == trimmed(s@),
{
    let n = s.unicode_len();
    let mut start: usize = 0;
    assert(s@.subrange(0, n as int) == s@);
    while start < n && is_white_space_char(s.get_char(start))
        invariant
            n == s@.len(),
            start <= n,
            trim_start(s@) == trim_start(s@.subrange(start as int, n as int)),
        decreases n - start,
    {
        assert(s@.subrange(start as int, n as int).drop_first() == s@.subrange(
            start as int + 1,
            n as int,
        ));
        start = start + 1;
    }
    let mut end: usize = n;
    while end > start && is_white_space_char(s.get_char(end - 1))
        invariant
            n == s@.len(),
            start <= end <= n,
            trim_start(s@) == s@.subrange(start as int, n as int),
            trimmed(s@) == trim_end(s@.subrange(start as int, end as int)),
        decreases end - start,
    {
        assert(s@.subrange(start as int, end as int).drop_last() == s@.subrange(
            start as int,
            end as int - 1,
        ));
        end = end - 1;
    }
    s.substring_char(start, end)
}

/// Why the tool refuses to run outside a work tree.
#[derive(Clone, Copy, Debug, PartialEq, Eq, Structural)]
pub enum GitRepoError {
    /// `git rev-parse` could not be started.
    NotStarted,
    /// `git rev-parse` failed: this is not a repository.
    NotARepository,
    /// `git rev-parse` did not answer `true`.
    NotAWorkTree,
}

impl GitRepoError {
    /// The message shown for this error.
    pub fn message(&self) -> (m: String)
        ensures
            m@ == match *self {
                GitRepoError::NotStarted => "No se pudo ejecutar git rev-parse"@,
                GitRepoError::NotARepository => "Este comando debe ejecutarse dentro de un repositorio git"@,
                GitRepoError::NotAWorkTree => "No estás dentro de un working tree git"@,
            },
    {
        match self {
            GitRepoError::NotStarted => String::from_str("No se pudo ejecutar git rev-parse"),
            GitRepoError::NotARepository => String::from_str(
                "Este comando debe ejecutarse dentro de un repositorio git",
            ),
            GitRepoError::NotAWorkTree => String::from_str("No estás dentro de un working tree git"),
        }
    }
}

/// The arguments of the command that asks git whether the current
/// directory lies inside a work tree.
pub fn work_tree_query() -> (args: Vec<String>)
    ensures
        args@.map_values(|a: String| a@) == seq!["rev-parse"@, "--is-inside-work-tree"@],
{
    let args = vec![String::from_str("rev-parse"), String::from_str("--is-inside-work-tree")];
    assert(args@.map_values(|a: String| a@) =~= seq!["rev-parse"@, "--is-inside-work-tree"@]);
    args
}

/// Reads the trimmed answer of `git rev-parse --is-inside-work-tree`:
/// only `true` means a work tree.
pub fn work_tree_answer(answer: &str) -> (res: Result<(), GitRepoError>)
    ensures
        res == if answer@ == "true"@ {
            Ok::<(), GitRepoError>(())
        } else {
            Err(GitRepoError::NotAWorkTree)
        },
{
    let expected = "true";
    if answer.unicode_len() != expected.unicode_len() {
        return Err(GitRepoError::NotAWorkTree);
    }
    let n = answer.unicode_len();
    let mut k: usize = 0;
    while k < n
        invariant
            n == answer@.len(),
            n == expected@.len(),
            expected@ == "true"@,
            k <= n,
            forall|j: int| 0 <= j < k ==> answer@[j] == expected@[j],
        decreases n - k,
    {
        if answer.get_char(k) != expected.get_char(k) {
            assert(answer@[k as int] != expected@[k as int]);
            assert(answer@ != expected@);
            return Err(GitRepoError::NotAWorkTree);
        }
        k = k + 1;
    }
    assert(answer@ =~= expected@);
    Ok(())
}

/// Decides from `git rev-parse --is-inside-work-tree` whether the tool
/// runs inside a work tree: the command must start and succeed, and its
/// output, decoded and trimmed, must be `true`.
pub fn ensure_git_repo(outcome: &GitOutcome) -> (res: Result<(), GitRepoError>)
    ensures
        res == match *outcome {
            GitOutcome::NotStarted => Err::<(), GitRepoError>(GitRepoError::NotStarted),
            GitOutcome::Finished { success, stdout } => if !success {
                Err(GitRepoError::NotARepository)
            } else if trimmed(lossy_text(stdout@)) == "true"@ {
                Ok(())
            } else {
                Err(GitRepoError::NotAWorkTree)
            },
        },
{
    match outcome {
        GitOutcome::NotStarted => Err(GitRepoError::NotStarted),
        GitOutcome::Finished { success, stdout } => {
            if !*success {
                return Err(GitRepoError::NotARepository);
            }
            let text = utf8_lossy(stdout.as_slice());
            let answer = trim_text(text.as_str());
            work_tree_answer(answer)
        },
    }
}

/// A command whose printed text was wanted did not succeed.
#[derive(Debug)]
pub enum GitStdoutError {
    /// The command could not be started; its arguments.
    NotStarted(Vec<String>),
    /// The command failed; its arguments.
    Failed(Vec<String>),
}

/// The `Debug` text of a list of arguments, as `format!("{:?}", ..)`
/// writes it.
pub uninterp spec fn debug_text(args: Seq<Seq<char>>) -> Seq<char>;

/// Writes a list of arguments with `format!("{:?}", ..)`. The contract
/// names the result; the quoting and escaping of `Debug` is left to the
/// name.
#[verifier::external_body]
fn debug_args(args: &Vec<String>) -> (text: String)
    ensures
        text@ == debug_text(args@.map_values(|a: String| a@)),
{
    format!("{:?}", args)
}

impl GitStdoutError {
    /// The message shown for this error.
    pub fn message(&self) -> (m: String)
        ensures
            m@ == match *self {
                GitStdoutError::NotStarted(args) => "No se pudo ejecutar git "@ + debug_text(
                    args@.map_values(|a: String| a@),
                ),
                GitStdoutError::Failed(args) => "git "@ + debug_text(
                    args@.map_values(|a: String| a@),
                ) + " devolvió error"@,
            },
    {
        match self {
            GitStdoutError::NotStarted(args) => String::from_str("No se pudo ejecutar git ").concat(
                debug_args(args).as_str(),
            ),
            GitStdoutError::Failed(args) => String::from_str("git ").concat(
                debug_args(args).as_str(),
            ).concat(" devolvió error"),
        }
    }
}

/// The text a `git` command printed, decoded and trimmed, or the error
/// that it could not be started or failed.
pub fn git_stdout(args: Vec<String>, outcome: &GitOutcome) -> (res: Result<String, GitStdoutError>)
    ensures
        match *outcome {
            GitOutcome::NotStarted => res is Err && res->Err_0 == GitStdoutError::NotStarted(args),
            GitOutcome::Finished { success, stdout } => if !success {
                res is Err && res->Err_0 == GitStdoutError::Failed(args)
            } else {
                res is Ok && res->Ok_0@ == trimmed(lossy_text(stdout@))
            },
        },
{
    match outcome {
        GitOutcome::NotStarted => Err(GitStdoutError::NotStarted(args)),
        GitOutcome::Finished { success, stdout } => {
            if !*success {
                return Err(GitStdoutError::Failed(args));
            }
            let text = utf8_lossy(stdout.as_slice());
            let answer = trim_text(text.as_str());
            Ok(String::from_str(answer))
        },
    }
}

}
