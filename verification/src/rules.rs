//! One directory's rule file, compiled into a matcher of the `ignore` crate.
//!
//! The pattern syntax and the matching itself are the `ignore` crate's. This
//! module states what the library relies on, and compiles the lines of a rule
//! file one by one so that a malformed line is never passed over.

use ignore::gitignore::{Gitignore, GitignoreBuilder};
use ignore::Match;
use vstd::prelude::*;

verus! {

/// What a single rule file says of a path.
#[derive(Clone, Copy, Debug, PartialEq, Eq, Structural)]
pub enum Verdict {
    /// No rule of the file applies to the path.
    Silent,
    /// The last rule that applies excludes the path.
    Ignore,
    /// The last rule that applies is a negation and re-includes the path.
    Whitelist,
}

/// Why a rule file was refused, with the reason that the `ignore` crate
/// gives.
#[derive(Clone, Debug, PartialEq, Eq)]
pub enum RuleFileError {
    /// The line with this index, counted from 0, is no valid pattern.
    BadLine { index: usize, reason: String },
    /// Every line is a valid pattern, but no matcher could be made of them.
    Unbuildable { reason: String },
}

/// What the matcher of a rule file holds: its directory and its patterns.
pub struct RuleText {
    pub root: Seq<char>,
    pub lines: Seq<Seq<char>>,
}

/// `ignore::gitignore::Gitignore`, the matcher of one rule file. Nothing is
/// known of a value but what the names below say of it.
#[verifier::external_type_specification]
#[verifier::external_body]
pub struct ExGitignore(Gitignore);

/// `ignore::gitignore::GitignoreBuilder`, which collects the lines of one
/// rule file.
#[verifier::external_type_specification]
#[verifier::external_body]
pub struct ExGitignoreBuilder(GitignoreBuilder);

/// The directory that a builder holds: the one it was made for, as
/// `kept_root` gives it.
pub uninterp spec fn builder_root(b: GitignoreBuilder) -> Seq<char>;

/// The patterns that a builder holds, oldest first: of each line that it
/// took, the text that `kept_of` gives.
pub uninterp spec fn builder_lines(b: GitignoreBuilder) -> Seq<Seq<char>>;

/// Whether a builder still has the options that `GitignoreBuilder::new` gave it.
pub uninterp spec fn builder_plain(b: GitignoreBuilder) -> bool;

/// The directory that a matcher holds: that of the builder it was made from.
pub uninterp spec fn matcher_root(g: Gitignore) -> Seq<char>;

/// The patterns that a matcher holds, oldest first: those of the builder it
/// was made from.
pub uninterp spec fn matcher_lines(g: Gitignore) -> Seq<Seq<char>>;

/// Whether a matcher was built from a builder with unchanged options.
pub uninterp spec fn matcher_plain(g: Gitignore) -> bool;

/// What `GitignoreBuilder::add_line` finds wrong with a line, on a builder
/// with unchanged options: `None` where it accepts the line, else the text
/// that its error prints.
pub uninterp spec fn line_fault(line: Seq<char>) -> Option<Seq<char>>;

/// What `GitignoreBuilder::build` finds wrong with the patterns that a
/// builder with unchanged options holds: `None` where it makes a matcher of
/// them, else the text that its error prints.
pub uninterp spec fn build_fault(lines: Seq<Seq<char>>) -> Option<Seq<char>>;

/// Whether a line is a valid pattern, a comment or blank.
pub open spec fn line_accepted(line: Seq<char>) -> bool {
    line_fault(line) is None
}

/// Whether a matcher can be made of these patterns.
pub open spec fn buildable(lines: Seq<Seq<char>>) -> bool {
    build_fault(lines) is None
}

/// What `Gitignore::matched` answers for a path, on a matcher built with
/// unchanged options that holds the directory `root` and the patterns `lines`.
pub uninterp spec fn verdict_of(
    root: Seq<char>,
    lines: Seq<Seq<char>>,
    path: Seq<char>,
    is_dir: bool,
) -> Verdict;

/// The directory that `GitignoreBuilder::new` keeps of the one it is given,
/// on Unix: the same without one leading `./`.
pub open spec fn kept_root(root: Seq<char>) -> Seq<char> {
    if root.len() >= 2 && root[0] == '.' && root[1] == '/' {
        root.skip(2)
    } else {
        root
    }
}

/// The characters that `char::is_whitespace` holds to be white space: those
/// with the Unicode property `White_Space`.
pub open spec fn is_white_space(c: char) -> bool {
    let n = c as u32;
    ||| 0x09 <= n <= 0x0d
    ||| n == 0x20
    ||| n == 0x85
    ||| n == 0xa0
    ||| n == 0x1680
    ||| 0x2000 <= n <= 0x200a
    ||| n == 0x2028
    ||| n == 0x2029
    ||| n == 0x202f
    ||| n == 0x205f
    ||| n == 0x3000
}

/// A line without the white space that it ends in.
pub open spec fn trimmed(line: Seq<char>) -> Seq<char>
    decreases line.len(),
{
    if line.len() > 0 && is_white_space(line.last()) {
        trimmed(line.drop_last())
    } else {
        line
    }
}

/// The pattern that `GitignoreBuilder::add_line` keeps of a line that it
/// takes, `None` where it keeps nothing. A comment, which begins with `#`,
/// leaves nothing. Any other line is kept without the white space that it
/// ends in, unless it ends in a backslash and a space, and leaves nothing
/// where nothing is left of it.
pub open spec fn kept_of(line: Seq<char>) -> Option<Seq<char>> {
    if line.len() > 0 && line[0] == '#' {
        None
    } else {
        let text = if line.len() >= 2 && line[line.len() - 2] == '\\' && line[line.len() - 1]
            == ' ' {
            line
        } else {
            trimmed(line)
        };
        if text.len() == 0 {
            None
        } else {
            Some(text)
        }
    }
}

/// The patterns that a builder keeps of these lines, taken one after the
/// other.
pub open spec fn kept_lines(lines: Seq<Seq<char>>) -> Seq<Seq<char>>
    decreases lines.len(),
{
    if lines.len() == 0 {
        Seq::empty()
    } else {
        let before = kept_lines(lines.drop_last());
        match kept_of(lines.last()) {
            Some(text) => before.push(text),
            None => before,
        }
    }
}

/// What the matcher of a rule file holds: the directory of the file and the
/// patterns of its lines.
pub open spec fn rule_text(dir: Seq<char>, lines: Seq<Seq<char>>) -> RuleText {
    RuleText { root: kept_root(dir), lines: kept_lines(lines) }
}

/// `GitignoreBuilder::new`: a builder that holds no pattern, has the default
/// options, and keeps the directory `root` without one leading `./`.
#[verifier::external_body]
fn new_builder(root: &str) -> (b: GitignoreBuilder)
    ensures
        builder_plain(b),
        builder_root(b) == kept_root(root@),
        builder_lines(b) == Seq::<Seq<char>>::empty(),
{
    GitignoreBuilder::new(root)
}

/// `GitignoreBuilder::add_line`, with no source path. Whether the line is
/// accepted depends on the line and the builder's options alone. Of an
/// accepted line the builder keeps what `kept_of` gives, behind the patterns
/// that it held: nothing of a comment or a blank line. A refused line leaves
/// the builder as it was; the error is handed on as the text that it
/// prints, which depends on the line and the options alone.
#[verifier::external_body]
fn add_line(b: &mut GitignoreBuilder, line: &str) -> (r: Result<(), String>)
    requires
        builder_plain(*old(b)),
    ensures
        builder_plain(*final(b)),
        builder_root(*final(b)) == builder_root(*old(b)),
        r is Ok <==> line_accepted(line@),
        r is Ok ==> builder_lines(*final(b)) == (match kept_of(line@) {
            Some(text) => builder_lines(*old(b)).push(text),
            None => builder_lines(*old(b)),
        }),
        r is Err ==> builder_lines(*final(b)) == builder_lines(*old(b)),
        r matches Err(reason) ==> line_fault(line@) == Some(reason@),
{
    match b.add_line(None, line) {
        Ok(_) => Ok(()),
        Err(error) => Err(error.to_string()),
    }
}

/// `GitignoreBuilder::build`: whether a matcher can be made depends on the
/// patterns that the builder holds and its options alone; the matcher holds
/// the builder's directory and patterns. An error is handed on as the text
/// that it prints, which depends on the patterns and the options alone.
#[verifier::external_body]
fn build(b: &GitignoreBuilder) -> (r: Result<Gitignore, String>)
    requires
        builder_plain(*b),
    ensures
        r is Ok <==> buildable(builder_lines(*b)),
        r matches Ok(g) ==> {
            &&& matcher_plain(g)
            &&& matcher_root(g) == builder_root(*b)
            &&& matcher_lines(g) == builder_lines(*b)
        },
        r matches Err(reason) ==> build_fault(builder_lines(*b)) == Some(reason@),
{
    match b.build() {
        Ok(matcher) => Ok(matcher),
        Err(error) => Err(error.to_string()),
    }
}

/// `Gitignore::matched`: the answer depends on the matcher's directory and
/// patterns, the path and whether it is a directory, and on nothing else.
#[verifier::external_body]
fn matched(g: &Gitignore, path: &str, is_dir: bool) -> (v: Verdict)
    requires
        matcher_plain(*g),
    ensures
        v == verdict_of(matcher_root(*g), matcher_lines(*g), path@, is_dir),
{
    match g.matched(path, is_dir) {
        Match::None => Verdict::Silent,
        Match::Ignore(_) => Verdict::Ignore,
        Match::Whitelist(_) => Verdict::Whitelist,
    }
}

/// The byte order mark that a text file may begin with.
pub const BYTE_ORDER_MARK: char = '\u{feff}';

/// A line without the byte order marks that it begins with.
pub open spec fn unmarked(line: Seq<char>) -> Seq<char>
    decreases line.len(),
{
    if line.len() > 0 && line[0] == BYTE_ORDER_MARK {
        unmarked(line.skip(1))
    } else {
        line
    }
}

/// The pattern lines of a rule file, given its lines as they were read: the
/// first line without leading byte order marks, every other line as it is.
pub open spec fn pattern_lines(lines: Seq<String>) -> Seq<Seq<char>> {
    Seq::new(
        lines.len(),
        |i: int|
            if i == 0 {
                unmarked(lines[i]@)
            } else {
                lines[i]@
            },
    )
}

/// Whether every one of the first `n` lines is a valid pattern.
pub open spec fn all_accepted(lines: Seq<Seq<char>>, n: int) -> bool {
    forall|i: int| 0 <= i < n && i < lines.len() ==> line_accepted(#[trigger] lines[i])
}

/// Whether `index` is the first line that is no valid pattern.
pub open spec fn first_refused(lines: Seq<Seq<char>>, index: int) -> bool {
    &&& 0 <= index < lines.len()
    &&& !line_accepted(lines[index])
    &&& all_accepted(lines, index)
}

/// Whether a rule file with these lines is well-formed: every line is a valid
/// pattern and a matcher can be made of what is kept of them.
pub open spec fn well_formed(lines: Seq<Seq<char>>) -> bool {
    all_accepted(lines, lines.len() as int) && buildable(kept_lines(lines))
}

/// Whether `error` is the fault of a rule file with these lines: its first
/// line that is no valid pattern or, where all are valid, that no matcher can
/// be made; each with the reason given for it.
pub open spec fn fault_of(lines: Seq<Seq<char>>, error: RuleFileError) -> bool {
    match error {
        RuleFileError::BadLine { index, reason } => {
            &&& first_refused(lines, index as int)
            &&& line_fault(lines[index as int]) == Some(reason@)
        },
        RuleFileError::Unbuildable { reason } => {
            &&& all_accepted(lines, lines.len() as int)
            &&& !buildable(kept_lines(lines))
            &&& build_fault(kept_lines(lines)) == Some(reason@)
        },
    }
}

impl RuleText {
    /// What the rule file says of a path.
    pub open spec fn verdict(self, path: Seq<char>, is_dir: bool) -> Verdict {
        verdict_of(self.root, self.lines, path, is_dir)
    }
}

/// Takes the leading byte order marks off a line.
pub fn strip_marks(line: &str) -> (rest: &str)
    ensures
        rest@ == unmarked(line@),
{
    let n = line.unicode_len();
    let mut k: usize = 0;
    proof {
        assert(line@.skip(0) =~= line@);
    }
    while k < n && line.get_char(k) == BYTE_ORDER_MARK
        invariant
            0 <= k <= n,
            n == line@.len(),
            unmarked(line@) == unmarked(line@.skip(k as int)),
        decreases n - k,
    {
        proof {
            assert(line@.skip(k as int).skip(1) =~= line@.skip(k as int + 1));
        }
        k = k + 1;
    }
    proof {
        assert(line@.skip(k as int) =~= line@.subrange(k as int, n as int));
    }
    line.substring_char(k, n)
}

/// The compiled rules of one directory.
pub struct RuleSet {
    matcher: Gitignore,
}

impl View for RuleSet {
    type V = RuleText;

    closed spec fn view(&self) -> RuleText {
        RuleText { root: matcher_root(self.matcher), lines: matcher_lines(self.matcher) }
    }
}

impl RuleSet {
    #[verifier::type_invariant]
    spec fn plain(self) -> bool {
        matcher_plain(self.matcher)
    }

    /// Compiles the rule file of directory `root`, given its lines as they
    /// were read. The file is taken if and only if its pattern lines are
    /// well-formed; otherwise the error names its fault.
    pub fn compile(root: &str, lines: &Vec<String>) -> (r: Result<RuleSet, RuleFileError>)
        ensures
            r is Ok <==> well_formed(pattern_lines(lines@)),
            r matches Ok(rules) ==> rules@ == rule_text(root@, pattern_lines(lines@)),
            r matches Err(error) ==> fault_of(pattern_lines(lines@), error),
    {
        let ghost all = pattern_lines(lines@);
        let mut builder = new_builder(root);
        let mut i: usize = 0;
        while i < lines.len()
            invariant
                0 <= i <= lines.len(),
                all == pattern_lines(lines@),
                builder_plain(builder),
                builder_root(builder) == kept_root(root@),
                builder_lines(builder) == kept_lines(all.take(i as int)),
                all_accepted(all, i as int),
            decreases lines.len() - i,
        {
            let line = if i == 0 {
                strip_marks(lines[i].as_str())
            } else {
                lines[i].as_str()
            };
            assert(line@ == all[i as int]);
            let added = add_line(&mut builder, line);
            match added {
                Err(reason) => {
                    assert(!line_accepted(all[i as int]));
                    return Err(RuleFileError::BadLine { index: i, reason });
                },
                Ok(_) => {},
            }
            proof {
                assert(all.take(i as int + 1).drop_last() =~= all.take(i as int));
                assert(all.take(i as int + 1).last() == all[i as int]);
            }
            i = i + 1;
        }
        proof {
            assert(all.take(all.len() as int) =~= all);
        }
        match build(&builder) {
            Ok(matcher) => Ok(RuleSet { matcher }),
            Err(reason) => Err(RuleFileError::Unbuildable { reason }),
        }
    }

    /// What these rules say of a path.
    pub fn verdict(&self, path: &str, is_dir: bool) -> (v: Verdict)
        ensures
            v == self@.verdict(path@, is_dir),
    {
        proof {
            use_type_invariant(self);
        }
        matched(&self.matcher, path, is_dir)
    }
}

} // verus!
