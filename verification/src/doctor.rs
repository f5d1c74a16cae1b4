//! `octos-tui doctor`: one diagnostic line per check (`[✓]` pass, `[!]` warn,
//! `[✗]` fail), grouped by category, every non-passing line followed by an
//! indented `→ fix:` action, and a closing one-line summary.
//!
//! Exit code `0` when nothing failed (warnings are mentioned but allowed),
//! `1` on any failure; `strict` promotes warnings to failures.
//!
//! The checks themselves are decisions over values that the caller observes
//! (environment variables, paths found on `$PATH`, whether a directory is
//! writable, what a server advertises); gathering those stays with the caller.

use vstd::prelude::*;
use crate::text::{
    chars_contain, chars_vec, contains, decimal, push_char, push_decimal, str_eq, to_ascii_upper,
    upper_chars,
};

verus! {

// ---------------------------------------------------------------------------
// Check status and a single check
// ---------------------------------------------------------------------------

#[derive(Debug, Clone, Copy, PartialEq, Eq, Structural)]
pub enum CheckStatus {
    Pass,
    Warn,
    Fail,
}

/// The bracketed glyph a status is rendered with.
pub open spec fn glyph_spec(s: CheckStatus) -> Seq<char> {
    match s {
        CheckStatus::Pass => "[✓]"@,
        CheckStatus::Warn => "[!]"@,
        CheckStatus::Fail => "[✗]"@,
    }
}

/// The word a status is written as in the JSON support bundle.
pub open spec fn json_str_spec(s: CheckStatus) -> Seq<char> {
    match s {
        CheckStatus::Pass => "pass"@,
        CheckStatus::Warn => "warn"@,
        CheckStatus::Fail => "fail"@,
    }
}

impl CheckStatus {
    pub fn glyph(self) -> (g: &'static str)
        ensures
            g@ == glyph_spec(self),
    {
        match self {
            CheckStatus::Pass => "[✓]",
            CheckStatus::Warn => "[!]",
            CheckStatus::Fail => "[✗]",
        }
    }

    pub fn json_str(self) -> (w: &'static str)
        ensures
            w@ == json_str_spec(self),
    {
        match self {
            CheckStatus::Pass => "pass",
            CheckStatus::Warn => "warn",
            CheckStatus::Fail => "fail",
        }
    }
}

/// A single diagnostic line.
#[derive(Debug, Clone, PartialEq, Eq)]
pub struct Check {
    pub category: String,
    pub name: String,
    pub status: CheckStatus,
    /// One-line detail shown after the name.
    pub detail: String,
    /// Actionable fix, rendered as a `→ fix:` line; `None` for passing checks.
    pub fix: Option<String>,
    /// Resolved value (path / version) shown with `verbose` and in JSON.
    pub value: Option<String>,
}

pub struct CheckView {
    pub category: Seq<char>,
    pub name: Seq<char>,
    pub status: CheckStatus,
    pub detail: Seq<char>,
    pub fix: Option<Seq<char>>,
    pub value: Option<Seq<char>>,
}

pub open spec fn opt_chars(o: Option<String>) -> Option<Seq<char>> {
    match o {
        Some(s) => Some(s@),
        None => None,
    }
}

impl View for Check {
    type V = CheckView;

    open spec fn view(&self) -> CheckView {
        CheckView {
            category: self.category@,
            name: self.name@,
            status: self.status,
            detail: self.detail@,
            fix: opt_chars(self.fix),
            value: opt_chars(self.value),
        }
    }
}

/// The check with the given fields and no resolved value.
pub open spec fn check_of(
    category: Seq<char>,
    name: Seq<char>,
    status: CheckStatus,
    detail: Seq<char>,
    fix: Option<Seq<char>>,
) -> CheckView {
    CheckView { category, name, status, detail, fix, value: None }
}

/// `c` with its resolved value set to `v`.
pub open spec fn valued(c: CheckView, v: Seq<char>) -> CheckView {
    CheckView { value: Some(v), ..c }
}

impl Check {
    /// A passing check: it carries no fix.
    pub fn pass(category: &str, name: &str, detail: &str) -> (c: Check)
        ensures
            c@ == check_of(category@, name@, CheckStatus::Pass, detail@, None),
    {
        Check {
            category: category.to_owned(),
            name: name.to_owned(),
            status: CheckStatus::Pass,
            detail: detail.to_owned(),
            fix: None,
            value: None,
        }
    }

    /// A warning, with the fix that clears it.
    pub fn warn(category: &str, name: &str, detail: &str, fix: &str) -> (c: Check)
        ensures
            c@ == check_of(category@, name@, CheckStatus::Warn, detail@, Some(fix@)),
    {
        Check {
            category: category.to_owned(),
            name: name.to_owned(),
            status: CheckStatus::Warn,
            detail: detail.to_owned(),
            fix: Some(fix.to_owned()),
            value: None,
        }
    }

    /// A failure, with the fix that clears it.
    pub fn fail(category: &str, name: &str, detail: &str, fix: &str) -> (c: Check)
        ensures
            c@ == check_of(category@, name@, CheckStatus::Fail, detail@, Some(fix@)),
    {
        Check {
            category: category.to_owned(),
            name: name.to_owned(),
            status: CheckStatus::Fail,
            detail: detail.to_owned(),
            fix: Some(fix.to_owned()),
            value: None,
        }
    }

    /// The same check with its resolved value set.
    pub fn with_value(self, value: &str) -> (c: Check)
        ensures
            c@ == valued(self@, value@),
    {
        let mut c = self;
        c.value = Some(value.to_owned());
        c
    }
}

// ---------------------------------------------------------------------------
// Report
// ---------------------------------------------------------------------------

/// Aggregated report.
#[derive(Debug, Clone)]
pub struct Report {
    pub checks: Vec<Check>,
}

pub open spec fn check_views(s: Seq<Check>) -> Seq<CheckView> {
    s.map_values(|c: Check| c@)
}

/// How many checks of `s` have status `st`.
pub open spec fn count_status(s: Seq<CheckView>, st: CheckStatus) -> nat
    decreases s.len(),
{
    if s.len() == 0 {
        0
    } else {
        count_status(s.drop_last(), st) + if s.last().status == st {
            1nat
        } else {
            0nat
        }
    }
}

/// Every check has exactly one status, so the three counts add up to the
/// number of checks.
pub proof fn law_counts_partition(s: Seq<CheckView>)
    ensures
        count_status(s, CheckStatus::Pass) + count_status(s, CheckStatus::Warn) + count_status(
            s,
            CheckStatus::Fail,
        ) == s.len(),
    decreases s.len(),
{
    if s.len() > 0 {
        law_counts_partition(s.drop_last());
    }
}

/// The exit code: `1` on any failure, or (with `strict`) on any warning.
pub open spec fn exit_code_spec(s: Seq<CheckView>, strict: bool) -> i32 {
    if count_status(s, CheckStatus::Fail) > 0 || (strict && count_status(s, CheckStatus::Warn)
        > 0) {
        1
    } else {
        0
    }
}

/// The lines one check renders as: glyph, name, ` — detail` when there is a
/// detail, ` (value)` when verbose and there is a value, then the fix line.
pub open spec fn check_lines(c: CheckView, verbose: bool) -> Seq<char> {
    glyph_spec(c.status) + " "@ + c.name + (if c.detail.len() > 0 {
        " — "@ + c.detail
    } else {
        Seq::empty()
    }) + (match c.value {
        Some(v) if verbose => " ("@ + v + ")"@,
        _ => Seq::empty(),
    }) + "\n"@ + match c.fix {
        Some(f) => "    → fix: "@ + f + "\n"@,
        None => Seq::empty(),
    }
}

/// The category heading written before a check whose predecessor had
/// category `prev` (a blank line separates it from the previous group).
pub open spec fn category_heading(prev: Option<Seq<char>>, cat: Seq<char>) -> Seq<char> {
    match prev {
        Some(p) if p == cat => Seq::empty(),
        Some(_) => "\n"@ + cat + "\n"@,
        None => cat + "\n"@,
    }
}

/// The category of the last check of `s`, if any.
pub open spec fn last_category(s: Seq<CheckView>) -> Option<Seq<char>> {
    if s.len() == 0 {
        None
    } else {
        Some(s.last().category)
    }
}

/// The grouped check lines of a report.
pub open spec fn render_checks(s: Seq<CheckView>, verbose: bool) -> Seq<char>
    decreases s.len(),
{
    if s.len() == 0 {
        Seq::empty()
    } else {
        render_checks(s.drop_last(), verbose) + category_heading(
            last_category(s.drop_last()),
            s.last().category,
        ) + check_lines(s.last(), verbose)
    }
}

/// The closing summary (with the blank line before it).
pub open spec fn summary_line(pass: nat, warn: nat, fail: nat, strict: bool) -> Seq<char> {
    "\n"@ + (if fail == 0 && (warn == 0 || !strict) {
        "• Doctor summary: "@ + decimal(pass) + " passed, "@ + decimal(warn)
            + " warning(s). No fatal issues found."@
    } else {
        "• Doctor summary: "@ + decimal(pass) + " passed, "@ + decimal(warn) + " warning(s), "@
            + decimal(fail) + " failure(s)."@
    }) + "\n"@
}

/// The whole human-readable report.
pub open spec fn render_spec(s: Seq<CheckView>, verbose: bool, strict: bool) -> Seq<char> {
    render_checks(s, verbose) + summary_line(
        count_status(s, CheckStatus::Pass),
        count_status(s, CheckStatus::Warn),
        count_status(s, CheckStatus::Fail),
        strict,
    )
}

/// `s` ends with `suffix`.
pub open spec fn ends_with(s: Seq<char>, suffix: Seq<char>) -> bool {
    s.len() >= suffix.len() && s.subrange(s.len() - suffix.len(), s.len() as int) == suffix
}

/// The report closes with "No fatal issues found." exactly when the exit
/// code is `0`.
pub proof fn law_summary_matches_exit_code(s: Seq<CheckView>, verbose: bool, strict: bool)
    ensures
        ends_with(render_spec(s, verbose, strict), " No fatal issues found.\n"@) <==> exit_code_spec(
            s,
            strict,
        ) == 0,
{
    reveal_strlit(" No fatal issues found.\n");
    reveal_strlit(" warning(s). No fatal issues found.");
    reveal_strlit(" failure(s).");
    reveal_strlit("\n");
    let out = render_spec(s, verbose, strict);
    let suffix = " No fatal issues found.\n"@;
    let pass = count_status(s, CheckStatus::Pass);
    let warn = count_status(s, CheckStatus::Warn);
    let fail = count_status(s, CheckStatus::Fail);
    let head = render_checks(s, verbose) + "\n"@ + "• Doctor summary: "@ + decimal(pass)
        + " passed, "@ + decimal(warn);
    if fail == 0 && (warn == 0 || !strict) {
        assert(out =~= head + " warning(s). No fatal issues found."@ + "\n"@);
        assert(out.subrange(out.len() - suffix.len(), out.len() as int) =~= suffix);
    } else {
        let tail = " warning(s), "@ + decimal(fail) + " failure(s)."@ + "\n"@;
        assert(out =~= head + tail);
        assert(out[out.len() - 3] == ')');
        if ends_with(out, suffix) {
            assert(out.subrange(out.len() - suffix.len(), out.len() as int)[suffix.len() - 3]
                == suffix[suffix.len() - 3]);
        }
    }
}

fn push_str(out: &mut String, s: &str)
    ensures
        final(out)@ == old(out)@ + s@,
{
    out.append(s);
}

fn push_check_lines(out: &mut String, c: &Check, verbose: bool)
    ensures
        final(out)@ == old(out)@ + check_lines(c@, verbose),
{
    push_str(out, c.status.glyph());
    push_char(out, ' ');
    push_str(out, c.name.as_str());
    if !c.detail.as_str().is_empty() {
        push_str(out, " — ");
        push_str(out, c.detail.as_str());
    }
    if verbose {
        if let Some(v) = &c.value {
            push_str(out, " (");
            push_str(out, v.as_str());
            push_char(out, ')');
        }
    }
    push_char(out, '\n');
    if let Some(f) = &c.fix {
        push_str(out, "    → fix: ");
        push_str(out, f.as_str());
        push_char(out, '\n');
    }
    proof {
        assert(seq![' '] =~= " "@) by { reveal_strlit(" "); }
        assert(seq!['\n'] =~= "\n"@) by { reveal_strlit("\n"); }
        assert(seq![')'] =~= ")"@) by { reveal_strlit(")"); }
    }
    assert(final(out)@ =~= old(out)@ + check_lines(c@, verbose));
}

impl Report {
    pub open spec fn views(&self) -> Seq<CheckView> {
        check_views(self.checks@)
    }

    pub fn new(checks: Vec<Check>) -> (r: Report)
        ensures
            r.checks@ == checks@,
    {
        Report { checks }
    }

    /// `(passed, warnings, failures)`.
    pub fn counts(&self) -> (r: (usize, usize, usize))
        ensures
            r.0 == count_status(self.views(), CheckStatus::Pass),
            r.1 == count_status(self.views(), CheckStatus::Warn),
            r.2 == count_status(self.views(), CheckStatus::Fail),
    {
        let mut pass: usize = 0;
        let mut warn: usize = 0;
        let mut fail: usize = 0;
        let n = self.checks.len();
        let mut i: usize = 0;
        while i < n
            invariant
                n == self.checks@.len(),
                i <= n,
                pass == count_status(self.views().take(i as int), CheckStatus::Pass),
                warn == count_status(self.views().take(i as int), CheckStatus::Warn),
                fail == count_status(self.views().take(i as int), CheckStatus::Fail),
            decreases n - i,
        {
            let ghost s = self.views().take(i + 1);
            assert(s.drop_last() =~= self.views().take(i as int));
            proof {
                law_counts_partition(self.views().take(i as int));
            }
            match self.checks[i].status {
                CheckStatus::Pass => pass = pass + 1,
                CheckStatus::Warn => warn = warn + 1,
                CheckStatus::Fail => fail = fail + 1,
            }
            i = i + 1;
        }
        assert(self.views().take(n as int) =~= self.views());
        (pass, warn, fail)
    }

    /// Exit code: `1` on any failure, or (with `strict`) any warning.
    pub fn exit_code(&self, strict: bool) -> (code: i32)
        ensures
            code == exit_code_spec(self.views(), strict),
    {
        let (_, warn, fail) = self.counts();
        if fail > 0 || (strict && warn > 0) {
            1
        } else {
            0
        }
    }

    /// The human-readable report.
    pub fn render(&self, verbose: bool, strict: bool) -> (text: String)
        ensures
            text@ == render_spec(self.views(), verbose, strict),
    {
        let mut out = String::new();
        let n = self.checks.len();
        let mut i: usize = 0;
        while i < n
            invariant
                n == self.checks@.len(),
                i <= n,
                out@ == render_checks(self.views().take(i as int), verbose),
            decreases n - i,
        {
            let check = &self.checks[i];
            let ghost s = self.views().take(i + 1);
            assert(s.drop_last() =~= self.views().take(i as int));
            let same = i > 0 && self.checks[i - 1].category == check.category;
            if !same {
                if i > 0 {
                    push_char(&mut out, '\n');
                }
                push_str(&mut out, check.category.as_str());
                push_char(&mut out, '\n');
            }
            proof {
                reveal_strlit("\n");
                let prev = last_category(s.drop_last());
                assert(i > 0 ==> prev == Some(self.views()[i - 1].category));
                assert(category_heading(prev, check@.category) =~= if same {
                    Seq::empty()
                } else if i > 0 {
                    seq!['\n'] + check@.category + seq!['\n']
                } else {
                    check@.category + seq!['\n']
                });
            }
            push_check_lines(&mut out, check, verbose);
            assert(out@ =~= render_checks(s, verbose));
            i = i + 1;
        }
        assert(self.views().take(n as int) =~= self.views());
        let (pass, warn, fail) = self.counts();
        push_char(&mut out, '\n');
        push_str(&mut out, "• Doctor summary: ");
        push_decimal(&mut out, pass);
        push_str(&mut out, " passed, ");
        push_decimal(&mut out, warn);
        if fail == 0 && (warn == 0 || !strict) {
            push_str(&mut out, " warning(s). No fatal issues found.");
        } else {
            push_str(&mut out, " warning(s), ");
            push_decimal(&mut out, fail);
            push_str(&mut out, " failure(s).");
        }
        push_char(&mut out, '\n');
        proof {
            reveal_strlit("\n");
        }
        assert(out@ =~= render_spec(self.views(), verbose, strict));
        out
    }
}

// ---------------------------------------------------------------------------
// String building
// ---------------------------------------------------------------------------

pub open spec fn opt_str(o: Option<&str>) -> Option<Seq<char>> {
    match o {
        Some(s) => Some(s@),
        None => None,
    }
}

pub open spec fn strs_view(v: Seq<String>) -> Seq<Seq<char>> {
    v.map_values(|x: String| x@)
}

/// `parts` joined by `sep` (std `join` on a slice of strings).
pub open spec fn join(parts: Seq<Seq<char>>, sep: Seq<char>) -> Seq<char>
    decreases parts.len(),
{
    if parts.len() == 0 {
        Seq::empty()
    } else if parts.len() == 1 {
        parts[0]
    } else {
        join(parts.drop_last(), sep) + sep + parts.last()
    }
}

fn concat2(a: &str, b: &str) -> (s: String)
    ensures
        s@ == a@ + b@,
{
    let mut s = a.to_owned();
    s.append(b);
    s
}

fn concat3(a: &str, b: &str, c: &str) -> (s: String)
    ensures
        s@ == a@ + b@ + c@,
{
    let mut s = a.to_owned();
    s.append(b);
    s.append(c);
    s
}

/// `parts[from..]` joined by `sep`.
fn join_from(parts: &[String], from: usize, sep: &str) -> (s: String)
    requires
        from <= parts@.len(),
    ensures
        s@ == join(strs_view(parts@).subrange(from as int, parts@.len() as int), sep@),
{
    let n = parts.len();
    let mut out = String::new();
    let mut i: usize = from;
    while i < n
        invariant
            n == parts@.len(),
            from <= i <= n,
            out@ == join(strs_view(parts@).subrange(from as int, i as int), sep@),
        decreases n - i,
    {
        let ghost before = strs_view(parts@).subrange(from as int, i as int);
        let ghost after = strs_view(parts@).subrange(from as int, i + 1);
        assert(after.drop_last() =~= before);
        if i > from {
            out.append(sep);
        }
        out.append(parts[i].as_str());
        assert(i == from ==> after =~= seq![parts@[i as int]@]);
        i = i + 1;
    }
    out
}

/// Whether `v` holds a string equal to `s`.
fn has_string(v: &Vec<String>, s: &String) -> (b: bool)
    ensures
        b == strs_view(v@).contains(s@),
{
    let n = v.len();
    let mut i: usize = 0;
    while i < n
        invariant
            n == v@.len(),
            i <= n,
            forall|k: int| 0 <= k < i ==> v@[k]@ != s@,
        decreases n - i,
    {
        if v[i] == *s {
            assert(strs_view(v@)[i as int] == s@);
            return true;
        }
        i = i + 1;
    }
    assert forall|k: int| 0 <= k < strs_view(v@).len() implies strs_view(v@)[k] != s@ by {
        assert(strs_view(v@)[k] == v@[k]@);
    }
    false
}

// ---------------------------------------------------------------------------
// Binary & version
// ---------------------------------------------------------------------------

pub const CAT_BINARY: &'static str = "Binary & version";

/// The resolved path of the running executable, or why it could not be had.
pub open spec fn binary_check_spec(exe: Result<Seq<char>, Seq<char>>, version: Seq<char>) -> CheckView {
    match exe {
        Ok(path) => valued(
            check_of(CAT_BINARY@, "octos-tui binary"@, CheckStatus::Pass, "v"@ + version, None),
            path,
        ),
        Err(e) => check_of(
            CAT_BINARY@,
            "octos-tui binary"@,
            CheckStatus::Warn,
            "could not resolve current executable: "@ + e,
            Some("ensure octos-tui is on a real filesystem path"@),
        ),
    }
}

/// The executable check, from where the running binary was resolved (or the
/// error text) and the crate version.
pub fn binary_check(exe: Result<&str, &str>, version: &str) -> (c: Check)
    ensures
        c@ == binary_check_spec(
            match exe {
                Ok(p) => Ok(p@),
                Err(e) => Err(e@),
            },
            version@,
        ),
{
    match exe {
        Ok(path) => {
            let detail = concat2("v", version);
            Check::pass(CAT_BINARY, "octos-tui binary", detail.as_str()).with_value(path)
        },
        Err(e) => {
            let detail = concat2("could not resolve current executable: ", e);
            Check::warn(
                CAT_BINARY,
                "octos-tui binary",
                detail.as_str(),
                "ensure octos-tui is on a real filesystem path",
            )
        },
    }
}

/// The shadowing-install check over the `octos-tui` binaries found on
/// `$PATH`, in precedence order: pass for at most one (saying so when there
/// is none), warn when several shadow each other.
pub open spec fn shadow_check_spec(paths: Seq<Seq<char>>) -> CheckView {
    if paths.len() == 0 {
        check_of(
            CAT_BINARY@,
            "no shadowing installs"@,
            CheckStatus::Pass,
            "octos-tui not found on $PATH"@,
            None,
        )
    } else if paths.len() == 1 {
        valued(
            check_of(
                CAT_BINARY@,
                "no shadowing installs"@,
                CheckStatus::Pass,
                "exactly one on PATH"@,
                None,
            ),
            paths[0],
        )
    } else {
        valued(
            check_of(
                CAT_BINARY@,
                "no shadowing installs"@,
                CheckStatus::Warn,
                decimal(paths.len()) + " octos-tui binaries on PATH; first wins: "@ + paths[0],
                Some("remove the extras: "@ + join(paths.subrange(1, paths.len() as int), ", "@)),
            ),
            join(paths, " | "@),
        )
    }
}

pub fn shadow_check(paths: &[String]) -> (c: Check)
    ensures
        c@ == shadow_check_spec(strs_view(paths@)),
{
    let n = paths.len();
    if n == 0 {
        Check::pass(CAT_BINARY, "no shadowing installs", "octos-tui not found on $PATH")
    } else if n == 1 {
        Check::pass(CAT_BINARY, "no shadowing installs", "exactly one on PATH").with_value(
            paths[0].as_str(),
        )
    } else {
        let mut detail = String::new();
        push_decimal(&mut detail, n);
        detail.append(" octos-tui binaries on PATH; first wins: ");
        detail.append(paths[0].as_str());
        let extras = join_from(paths, 1, ", ");
        let fix = concat2("remove the extras: ", extras.as_str());
        let all = join_from(paths, 0, " | ");
        assert(strs_view(paths@).subrange(0, n as int) =~= strs_view(paths@));
        Check::warn(CAT_BINARY, "no shadowing installs", detail.as_str(), fix.as_str()).with_value(
            all.as_str(),
        )
    }
}

/// Candidate paths with their canonical paths, each as text.
pub open spec fn pairs_view(c: Seq<(String, String)>) -> Seq<(Seq<char>, Seq<char>)> {
    c.map_values(|p: (String, String)| (p.0@, p.1@))
}

/// The candidates kept when each canonical path counts once: for each
/// canonical path, the first candidate that has it, in the given order.
pub open spec fn first_by_canonical_spec(c: Seq<(Seq<char>, Seq<char>)>) -> Seq<Seq<char>>
    decreases c.len(),
{
    if c.len() == 0 {
        Seq::empty()
    } else {
        let prev = c.drop_last();
        if exists|j: int| 0 <= j < prev.len() && #[trigger] prev[j].1 == c.last().1 {
            first_by_canonical_spec(prev)
        } else {
            first_by_canonical_spec(prev).push(c.last().0)
        }
    }
}

/// Whether a candidate before position `i` has the canonical path of the one at `i`.
fn canonical_seen_before(candidates: &[(String, String)], i: usize) -> (r: bool)
    requires
        i < candidates@.len(),
    ensures
        r == exists|j: int| 0 <= j < i && #[trigger] candidates@[j].1@ == candidates@[i as int].1@,
{
    let mut j: usize = 0;
    while j < i
        invariant
            i < candidates@.len(),
            j <= i,
            forall|k: int| 0 <= k < j ==> #[trigger] candidates@[k].1@ != candidates@[i as int].1@,
        decreases i - j,
    {
        if str_eq(candidates[j].1.as_str(), candidates[i].1.as_str()) {
            return true;
        }
        j = j + 1;
    }
    false
}

/// The `octos-tui` binaries found on the search path, given as (candidate,
/// canonical path) in PATH precedence order, with each canonical path kept
/// once: the first candidate that resolves to it wins.
pub fn first_by_canonical(candidates: &[(String, String)]) -> (kept: Vec<String>)
    ensures
        strs_view(kept@) == first_by_canonical_spec(pairs_view(candidates@)),
{
    let n = candidates.len();
    let mut kept: Vec<String> = Vec::new();
    let mut i: usize = 0;
    while i < n
        invariant
            n == candidates@.len(),
            i <= n,
            strs_view(kept@) == first_by_canonical_spec(pairs_view(candidates@).take(i as int)),
        decreases n - i,
    {
        let ghost c = pairs_view(candidates@).take(i + 1);
        assert(c.drop_last() =~= pairs_view(candidates@).take(i as int));
        let seen = canonical_seen_before(candidates, i);
        proof {
            if seen {
                let j = choose|j: int| 0 <= j < i && #[trigger] candidates@[j].1@ == candidates@[i as int].1@;
                assert(c.drop_last()[j].1 == c.last().1);
            } else {
                assert forall|j: int| 0 <= j < c.drop_last().len() implies #[trigger] c.drop_last()[j].1
                    != c.last().1 by {
                    assert(candidates@[j].1@ != candidates@[i as int].1@);
                }
            }
        }
        if !seen {
            kept.push(candidates[i].0.clone());
            assert(strs_view(kept@) =~= strs_view(kept@).drop_last().push(c.last().0));
        }
        i = i + 1;
    }
    assert(pairs_view(candidates@).take(n as int) =~= pairs_view(candidates@));
    kept
}

/// What the release lookup found, after the versions were parsed.
pub enum ReleaseOutcome {
    /// The lookup failed, with the error text.
    Unreachable(String),
    /// The latest tag (given) or the running version could not be parsed.
    Unparsed(String),
    /// A newer release than the running one exists.
    Newer { current: String, latest: String },
    /// The running version is the latest.
    Current { current: String, latest: String },
}

pub open spec fn release_check_spec(outcome: ReleaseOutcome, upgrade: Option<Seq<char>>) -> CheckView {
    match outcome {
        ReleaseOutcome::Unreachable(err) => check_of(
            CAT_BINARY@,
            "up to date"@,
            CheckStatus::Warn,
            "could not check GitHub for a newer release: "@ + err@,
            Some("run `octos-tui update --check` when online"@),
        ),
        ReleaseOutcome::Unparsed(tag) => check_of(
            CAT_BINARY@,
            "up to date"@,
            CheckStatus::Warn,
            "could not parse versions (latest tag "@ + tag@ + ")"@,
            Some("run `octos-tui update --check`"@),
        ),
        ReleaseOutcome::Newer { current, latest } => check_of(
            CAT_BINARY@,
            "up to date"@,
            CheckStatus::Warn,
            "newer release available: "@ + current@ + " -> "@ + latest@,
            Some(
                match upgrade {
                    Some(u) => u,
                    None => "run `octos-tui update`"@,
                },
            ),
        ),
        ReleaseOutcome::Current { current, latest } => valued(
            check_of(CAT_BINARY@, "up to date"@, CheckStatus::Pass, "v"@ + current@ + " is current"@, None),
            latest@,
        ),
    }
}

/// The newer-release check; a lookup failure is a warning, never a failure.
/// `upgrade_command` is the install method's own upgrade command, if it has one.
pub fn release_check(outcome: &ReleaseOutcome, upgrade_command: Option<&str>) -> (c: Check)
    ensures
        c@ == release_check_spec(*outcome, opt_str(upgrade_command)),
{
    match outcome {
        ReleaseOutcome::Unreachable(err) => {
            let detail = concat2("could not check GitHub for a newer release: ", err.as_str());
            Check::warn(
                CAT_BINARY,
                "up to date",
                detail.as_str(),
                "run `octos-tui update --check` when online",
            )
        },
        ReleaseOutcome::Unparsed(tag) => {
            let detail = concat3("could not parse versions (latest tag ", tag.as_str(), ")");
            Check::warn(CAT_BINARY, "up to date", detail.as_str(), "run `octos-tui update --check`")
        },
        ReleaseOutcome::Newer { current, latest } => {
            let mut detail = concat3("newer release available: ", current.as_str(), " -> ");
            detail.append(latest.as_str());
            let fix = match upgrade_command {
                Some(u) => u,
                None => "run `octos-tui update`",
            };
            Check::warn(CAT_BINARY, "up to date", detail.as_str(), fix)
        },
        ReleaseOutcome::Current { current, latest } => {
            let detail = concat3("v", current.as_str(), " is current");
            Check::pass(CAT_BINARY, "up to date", detail.as_str()).with_value(latest.as_str())
        },
    }
}

// ---------------------------------------------------------------------------
// Terminal environment
// ---------------------------------------------------------------------------

pub const CAT_TERM: &'static str = "Terminal environment";

/// `TERM` must be set and not `dumb`.
pub open spec fn term_check_spec(term: Option<Seq<char>>) -> CheckView {
    match term {
        Some(t) if t.len() > 0 && t != "dumb"@ => valued(
            check_of(CAT_TERM@, "TERM set"@, CheckStatus::Pass, t, None),
            t,
        ),
        Some(t) if t == "dumb"@ => check_of(
            CAT_TERM@,
            "TERM set"@,
            CheckStatus::Warn,
            "TERM=dumb has no terminfo capabilities"@,
            Some("export TERM=xterm-256color"@),
        ),
        _ => check_of(
            CAT_TERM@,
            "TERM set"@,
            CheckStatus::Warn,
            "TERM is unset; the TUI may not render or may report 'can't find terminfo database'"@,
            Some("export TERM=xterm-256color"@),
        ),
    }
}

pub fn term_check(term: Option<&str>) -> (c: Check)
    ensures
        c@ == term_check_spec(opt_str(term)),
{
    match term {
        Some(t) => {
            let dumb = str_eq(t, "dumb");
            if !t.is_empty() && !dumb {
                return Check::pass(CAT_TERM, "TERM set", t).with_value(t);
            }
            if dumb {
                return Check::warn(
                    CAT_TERM,
                    "TERM set",
                    "TERM=dumb has no terminfo capabilities",
                    "export TERM=xterm-256color",
                );
            }
        },
        None => {},
    }
    Check::warn(
        CAT_TERM,
        "TERM set",
        "TERM is unset; the TUI may not render or may report 'can't find terminfo database'",
        "export TERM=xterm-256color",
    )
}

/// The locale in effect: `LC_ALL`, else `LC_CTYPE`, else `LANG`.
pub open spec fn effective_locale(
    lang: Option<Seq<char>>,
    lc_all: Option<Seq<char>>,
    lc_ctype: Option<Seq<char>>,
) -> Option<Seq<char>> {
    if lc_all is Some {
        lc_all
    } else if lc_ctype is Some {
        lc_ctype
    } else {
        lang
    }
}

/// Whether a locale name names UTF-8 (case-insensitively `UTF-8` or `UTF8`).
pub open spec fn is_utf8_locale(v: Seq<char>) -> bool {
    contains(to_ascii_upper(v), "UTF-8"@) || contains(to_ascii_upper(v), "UTF8"@)
}

pub open spec fn locale_check_spec(
    lang: Option<Seq<char>>,
    lc_all: Option<Seq<char>>,
    lc_ctype: Option<Seq<char>>,
) -> CheckView {
    match effective_locale(lang, lc_all, lc_ctype) {
        Some(v) if is_utf8_locale(v) => valued(
            check_of(CAT_TERM@, "UTF-8 locale"@, CheckStatus::Pass, v, None),
            v,
        ),
        Some(v) => check_of(
            CAT_TERM@,
            "UTF-8 locale"@,
            CheckStatus::Warn,
            "locale `"@ + v + "` is not UTF-8; box-drawing and CJK may break"@,
            Some("export LANG=en_US.UTF-8 (or your locale with .UTF-8)"@),
        ),
        None => check_of(
            CAT_TERM@,
            "UTF-8 locale"@,
            CheckStatus::Warn,
            "no LANG/LC_ALL/LC_CTYPE set"@,
            Some("export LANG=en_US.UTF-8"@),
        ),
    }
}

/// Whether `hay` contains `needle` (std `str::contains`).
fn str_contains(hay: &str, needle: &str) -> (b: bool)
    ensures
        b == contains(hay@, needle@),
{
    let h = chars_vec(hay);
    let n = chars_vec(needle);
    chars_contain(h.as_slice(), n.as_slice())
}

pub fn locale_check(lang: Option<&str>, lc_all: Option<&str>, lc_ctype: Option<&str>) -> (c: Check)
    ensures
        c@ == locale_check_spec(opt_str(lang), opt_str(lc_all), opt_str(lc_ctype)),
{
    let effective = match lc_all {
        Some(v) => Some(v),
        None => match lc_ctype {
            Some(v) => Some(v),
            None => lang,
        },
    };
    match effective {
        Some(v) => {
            let chars = chars_vec(v);
            let upper = upper_chars(chars.as_slice());
            let dash = chars_vec("UTF-8");
            let plain = chars_vec("UTF8");
            if chars_contain(upper.as_slice(), dash.as_slice()) || chars_contain(
                upper.as_slice(),
                plain.as_slice(),
            ) {
                Check::pass(CAT_TERM, "UTF-8 locale", v).with_value(v)
            } else {
                let detail = concat3("locale `", v, "` is not UTF-8; box-drawing and CJK may break");
                Check::warn(
                    CAT_TERM,
                    "UTF-8 locale",
                    detail.as_str(),
                    "export LANG=en_US.UTF-8 (or your locale with .UTF-8)",
                )
            }
        },
        None => Check::warn(
            CAT_TERM,
            "UTF-8 locale",
            "no LANG/LC_ALL/LC_CTYPE set",
            "export LANG=en_US.UTF-8",
        ),
    }
}

/// CJK width is informational: it also depends on the terminal font, so it
/// never fails.
pub fn cjk_check() -> (c: Check)
    ensures
        c@ == check_of(
            CAT_TERM@,
            "CJK width"@,
            CheckStatus::Pass,
            "uses unicode-width for double-width glyphs (also depends on terminal font)"@,
            None,
        ),
{
    Check::pass(
        CAT_TERM,
        "CJK width",
        "uses unicode-width for double-width glyphs (also depends on terminal font)",
    )
}

/// Truecolor from `COLORTERM`, else 256 colours from `TERM`, else a warning.
pub open spec fn color_check_spec(term: Option<Seq<char>>, colorterm: Option<Seq<char>>) -> CheckView {
    let truecolor = match colorterm {
        Some(c) => contains(c, "truecolor"@) || contains(c, "24bit"@),
        None => false,
    };
    let has_256 = match term {
        Some(t) => contains(t, "256color"@),
        None => false,
    };
    if truecolor {
        check_of(CAT_TERM@, "color support"@, CheckStatus::Pass, "truecolor (24-bit)"@, None)
    } else if has_256 {
        check_of(CAT_TERM@, "color support"@, CheckStatus::Pass, "256-color"@, None)
    } else {
        check_of(
            CAT_TERM@,
            "color support"@,
            CheckStatus::Warn,
            "no truecolor/256-color advertised; themes may look flat"@,
            Some("use a 256-color terminal and set TERM=xterm-256color (COLORTERM=truecolor)"@),
        )
    }
}

/// A terminal advertising truecolor in `COLORTERM` ("truecolor" or "24bit")
/// is reported as truecolor whatever `TERM` says; otherwise a `TERM` with
/// "256color" is reported as 256-color; a terminal advertising neither gets
/// a warning. The check never fails.
pub proof fn law_color_support_prefers_truecolor(term: Option<Seq<char>>, colorterm: Option<Seq<char>>)
    ensures
        ({
            let c = color_check_spec(term, colorterm);
            let truecolor = colorterm matches Some(ct) && (contains(ct, "truecolor"@) || contains(
                ct,
                "24bit"@,
            ));
            let has_256 = term matches Some(t) && contains(t, "256color"@);
            &&& truecolor ==> c.status == CheckStatus::Pass && c.detail == "truecolor (24-bit)"@
            &&& !truecolor && has_256 ==> c.status == CheckStatus::Pass && c.detail == "256-color"@
            &&& !truecolor && !has_256 ==> c.status == CheckStatus::Warn
            &&& c.status != CheckStatus::Fail
            &&& c.name == "color support"@
        }),
{
}

pub fn color_check(term: Option<&str>, colorterm: Option<&str>) -> (c: Check)
    ensures
        c@ == color_check_spec(opt_str(term), opt_str(colorterm)),
{
    let truecolor = match colorterm {
        Some(c) => str_contains(c, "truecolor") || str_contains(c, "24bit"),
        None => false,
    };
    let has_256 = match term {
        Some(t) => str_contains(t, "256color"),
        None => false,
    };
    if truecolor {
        Check::pass(CAT_TERM, "color support", "truecolor (24-bit)")
    } else if has_256 {
        Check::pass(CAT_TERM, "color support", "256-color")
    } else {
        Check::warn(
            CAT_TERM,
            "color support",
            "no truecolor/256-color advertised; themes may look flat",
            "use a 256-color terminal and set TERM=xterm-256color (COLORTERM=truecolor)",
        )
    }
}

// ---------------------------------------------------------------------------
// Config & data
// ---------------------------------------------------------------------------

pub const CAT_CONFIG: &'static str = "Config & data";

/// A directory must exist and be writable; a missing one is a warning (it
/// can be created), an unwritable one a failure.
pub open spec fn writability_check_spec(
    name: Seq<char>,
    dir: Seq<char>,
    is_dir: bool,
    writable: bool,
) -> CheckView {
    if is_dir {
        if writable {
            valued(
                check_of(CAT_CONFIG@, name, CheckStatus::Pass, "present and writable"@, None),
                dir,
            )
        } else {
            check_of(
                CAT_CONFIG@,
                name,
                CheckStatus::Fail,
                dir + " is not writable"@,
                Some("chmod u+w "@ + dir),
            )
        }
    } else {
        valued(
            check_of(
                CAT_CONFIG@,
                name,
                CheckStatus::Warn,
                dir + " does not exist yet"@,
                Some("mkdir -p "@ + dir),
            ),
            dir,
        )
    }
}

/// The writability check, from what was observed of `dir`: whether it is a
/// directory, and (when it is) whether a probe file could be created in it.
pub fn writability_check(name: &str, dir: &str, is_dir: bool, writable: bool) -> (c: Check)
    ensures
        c@ == writability_check_spec(name@, dir@, is_dir, writable),
{
    if is_dir {
        if writable {
            Check::pass(CAT_CONFIG, name, "present and writable").with_value(dir)
        } else {
            let detail = concat2(dir, " is not writable");
            let fix = concat2("chmod u+w ", dir);
            Check::fail(CAT_CONFIG, name, detail.as_str(), fix.as_str())
        }
    } else {
        let detail = concat2(dir, " does not exist yet");
        let fix = concat2("mkdir -p ", dir);
        Check::warn(CAT_CONFIG, name, detail.as_str(), fix.as_str()).with_value(dir)
    }
}

// ---------------------------------------------------------------------------
// Network
// ---------------------------------------------------------------------------

pub const CAT_NETWORK: &'static str = "Network";

/// How the GitHub API answered.
pub enum Reachability {
    Reachable,
    RateLimited,
    Unreachable(String),
}

pub open spec fn network_check_spec(r: Reachability) -> CheckView {
    match r {
        Reachability::Reachable => check_of(
            CAT_NETWORK@,
            "GitHub reachable"@,
            CheckStatus::Pass,
            "api.github.com OK"@,
            None,
        ),
        Reachability::RateLimited => check_of(
            CAT_NETWORK@,
            "GitHub reachable"@,
            CheckStatus::Warn,
            "api.github.com rate-limited (HTTP 403)"@,
            Some("set OCTOS_TUI_GITHUB_TOKEN to raise the rate limit"@),
        ),
        Reachability::Unreachable(err) => check_of(
            CAT_NETWORK@,
            "GitHub reachable"@,
            CheckStatus::Warn,
            "api.github.com unreachable: "@ + err@,
            Some("check your network/proxy; update checks will be unavailable"@),
        ),
    }
}

pub fn network_check(r: &Reachability) -> (c: Check)
    ensures
        c@ == network_check_spec(*r),
{
    match r {
        Reachability::Reachable => Check::pass(CAT_NETWORK, "GitHub reachable", "api.github.com OK"),
        Reachability::RateLimited => Check::warn(
            CAT_NETWORK,
            "GitHub reachable",
            "api.github.com rate-limited (HTTP 403)",
            "set OCTOS_TUI_GITHUB_TOKEN to raise the rate limit",
        ),
        Reachability::Unreachable(err) => {
            let detail = concat2("api.github.com unreachable: ", err.as_str());
            Check::warn(
                CAT_NETWORK,
                "GitHub reachable",
                detail.as_str(),
                "check your network/proxy; update checks will be unavailable",
            )
        },
    }
}

// ---------------------------------------------------------------------------
// Backend: stdio command, transport, protocol skew
// ---------------------------------------------------------------------------

pub const CAT_BACKEND: &'static str = "Backend";

/// The words `shlex::split` makes of a command line (`None` when the line is
/// not valid shell syntax, such as an unclosed quote).
pub uninterp spec fn shlex_words(line: Seq<char>) -> Option<Seq<Seq<char>>>;

pub open spec fn opt_words(w: Option<Vec<String>>) -> Option<Seq<Seq<char>>> {
    match w {
        Some(v) => Some(strs_view(v@)),
        None => None,
    }
}

/// `shlex::split`: POSIX-shell word splitting of a command line.
///
/// Trusted: the result is a function of the line alone (shlex keeps no state
/// between calls), named `shlex_words`; nothing more of it is stated.
#[verifier::external_body]
fn shlex_split(line: &str) -> (r: Option<Vec<String>>)
    ensures
        opt_words(r) == shlex_words(line@),
{
    shlex::split(line)
}

/// The first word, if the line split and has one.
pub open spec fn first_word_spec(words: Option<Seq<Seq<char>>>) -> Option<Seq<char>> {
    match words {
        Some(w) if w.len() > 0 => Some(w[0]),
        _ => None,
    }
}

/// The program of a split command line: its first word.
pub fn first_word(words: Option<Vec<String>>) -> (r: Option<String>)
    ensures
        opt_chars(r) == first_word_spec(opt_words(words)),
{
    match words {
        Some(w) => {
            if w.len() > 0 {
                let first = w[0].clone();
                Some(first)
            } else {
                None
            }
        },
        None => None,
    }
}

/// The program a `--stdio-command` line launches: the first shell word.
pub fn stdio_program(command: &str) -> (r: Option<String>)
    ensures
        opt_chars(r) == first_word_spec(shlex_words(command@)),
{
    first_word(shlex_split(command))
}

pub open spec fn stdio_command_check_spec(
    command: Seq<char>,
    program: Option<Seq<char>>,
    resolved: Option<Seq<char>>,
    version_output: Option<Seq<char>>,
) -> CheckView {
    match program {
        None => check_of(
            CAT_BACKEND@,
            "stdio command"@,
            CheckStatus::Fail,
            "could not parse stdio command `"@ + command + "`"@,
            Some("set a valid --stdio-command (e.g. `octos serve --stdio`)"@),
        ),
        Some(p) => match resolved {
            Some(path) => valued(
                check_of(
                    CAT_BACKEND@,
                    "stdio command"@,
                    CheckStatus::Pass,
                    match version_output {
                        Some(v) if crate::text::trim(v).len() > 0 => "resolves to "@ + path + " ("@
                            + crate::text::trim(v) + ")"@,
                        _ => "resolves to "@ + path,
                    },
                    None,
                ),
                path,
            ),
            None => check_of(
                CAT_BACKEND@,
                "stdio command"@,
                CheckStatus::Fail,
                "`"@ + p + "` not found on PATH"@,
                Some("install `"@ + p + "` or correct --stdio-command"@),
            ),
        },
    }
}

/// The stdio-command check: `program` is the command's first word (see
/// [`stdio_program`]), `resolved` where it was found on `$PATH`, and
/// `version_output` what a successful `<program> --version` printed.
pub fn stdio_command_check(
    command: &str,
    program: Option<&str>,
    resolved: Option<&str>,
    version_output: Option<&str>,
) -> (c: Check)
    ensures
        c@ == stdio_command_check_spec(
            command@,
            opt_str(program),
            opt_str(resolved),
            opt_str(version_output),
        ),
{
    match program {
        None => {
            let detail = concat3("could not parse stdio command `", command, "`");
            Check::fail(
                CAT_BACKEND,
                "stdio command",
                detail.as_str(),
                "set a valid --stdio-command (e.g. `octos serve --stdio`)",
            )
        },
        Some(p) => match resolved {
            Some(path) => {
                let mut detail = concat2("resolves to ", path);
                if let Some(out) = version_output {
                    let chars = chars_vec(out);
                    let v = crate::text::trimmed(chars.as_slice());
                    if v.len() > 0 {
                        detail.append(" (");
                        crate::text::push_chars(&mut detail, v.as_slice());
                        push_char(&mut detail, ')');
                        proof {
                            reveal_strlit(")");
                            assert(seq![')'] =~= ")"@);
                        }
                        assert(detail@ =~= "resolves to "@ + path@ + " ("@ + crate::text::trim(out@)
                            + ")"@);
                    }
                }
                Check::pass(CAT_BACKEND, "stdio command", detail.as_str()).with_value(path)
            },
            None => {
                let detail = concat3("`", p, "` not found on PATH");
                let fix = concat3("install `", p, "` or correct --stdio-command");
                Check::fail(CAT_BACKEND, "stdio command", detail.as_str(), fix.as_str())
            },
        },
    }
}

/// The transport line when no stdio command is configured: a WS endpoint is
/// recorded (its live probe is not run by doctor), otherwise mock mode.
pub open spec fn transport_check_spec(endpoint: Option<Seq<char>>) -> CheckView {
    match endpoint {
        Some(e) => valued(
            check_of(
                CAT_BACKEND@,
                "WS endpoint probe"@,
                CheckStatus::Warn,
                "endpoint configured ("@ + e
                    + "); live config/capabilities/list probe not yet wired"@,
                Some(
                    "run `octos-tui --endpoint … ` to exercise the live connection (doctor does not probe it live yet)"@,
                ),
            ),
            e,
        ),
        None => check_of(
            CAT_BACKEND@,
            "transport"@,
            CheckStatus::Pass,
            "no backend configured (mock mode); skipping connectivity"@,
            None,
        ),
    }
}

pub fn transport_check(endpoint: Option<&str>) -> (c: Check)
    ensures
        c@ == transport_check_spec(opt_str(endpoint)),
{
    match endpoint {
        Some(e) => {
            let detail = concat3(
                "endpoint configured (",
                e,
                "); live config/capabilities/list probe not yet wired",
            );
            Check::warn(
                CAT_BACKEND,
                "WS endpoint probe",
                detail.as_str(),
                "run `octos-tui --endpoint … ` to exercise the live connection (doctor does not probe it live yet)",
            ).with_value(e)
        },
        None => Check::pass(
            CAT_BACKEND,
            "transport",
            "no backend configured (mock mode); skipping connectivity",
        ),
    }
}

/// The protocol a build of the TUI speaks: its family, its schema version and
/// the features it requires of any server.
pub struct UiProtocolBuild {
    pub protocol: String,
    pub schema_version: u32,
    pub required_features: Vec<String>,
}

pub struct UiProtocolVersion {
    pub protocol: String,
    pub schema_version: u32,
}

/// What a server advertises in `config/capabilities/list`.
pub struct UiProtocolCapabilities {
    pub version: UiProtocolVersion,
    pub supported_features: Vec<String>,
}

/// The entries of `req` that `have` lacks, in order.
pub open spec fn absent(req: Seq<Seq<char>>, have: Seq<Seq<char>>) -> Seq<Seq<char>>
    decreases req.len(),
{
    if req.len() == 0 {
        Seq::empty()
    } else {
        absent(req.drop_last(), have) + if have.contains(req.last()) {
            Seq::empty()
        } else {
            seq![req.last()]
        }
    }
}

/// Nothing is absent exactly when `have` holds every entry of `req`.
pub proof fn lemma_absent_empty(req: Seq<Seq<char>>, have: Seq<Seq<char>>)
    ensures
        absent(req, have).len() == 0 <==> forall|i: int| 0 <= i < req.len() ==> have.contains(
            #[trigger] req[i],
        ),
    decreases req.len(),
{
    if req.len() > 0 {
        lemma_absent_empty(req.drop_last(), have);
        assert forall|i: int| 0 <= i < req.len() - 1 implies req.drop_last()[i] == req[i] by {}
        if absent(req, have).len() == 0 {
            assert forall|i: int| 0 <= i < req.len() implies have.contains(#[trigger] req[i]) by {
                if i < req.len() - 1 {
                    assert(req.drop_last()[i] == req[i]);
                }
            }
        }
    }
}

fn absent_from(req: &Vec<String>, have: &Vec<String>) -> (r: Vec<String>)
    ensures
        strs_view(r@) == absent(strs_view(req@), strs_view(have@)),
{
    let mut out: Vec<String> = Vec::new();
    let n = req.len();
    let mut i: usize = 0;
    while i < n
        invariant
            n == req@.len(),
            i <= n,
            strs_view(out@) == absent(strs_view(req@).take(i as int), strs_view(have@)),
        decreases n - i,
    {
        let ghost before = out@;
        assert(strs_view(req@).take(i + 1).drop_last() =~= strs_view(req@).take(i as int));
        if !has_string(have, &req[i]) {
            let f = req[i].clone();
            out.push(f);
            assert(strs_view(out@) =~= strs_view(before) + seq![req@[i as int]@]);
        }
        i = i + 1;
    }
    assert(strs_view(req@).take(n as int) =~= strs_view(req@));
    out
}

pub open spec fn protocol_skew_check_spec(
    protocol: Seq<char>,
    schema: u32,
    required: Seq<Seq<char>>,
    known: Seq<Seq<char>>,
) -> CheckView {
    let unknown = absent(required, known);
    if unknown.len() == 0 {
        valued(
            check_of(
                CAT_BACKEND@,
                "protocol skew"@,
                CheckStatus::Pass,
                "TUI requires "@ + decimal(required.len()) + " features; all known in "@ + protocol
                    + " (schema v"@ + decimal(schema as nat) + ")"@,
                None,
            ),
            protocol + " schema v"@ + decimal(schema as nat),
        )
    } else {
        check_of(
            CAT_BACKEND@,
            "protocol skew"@,
            CheckStatus::Fail,
            "TUI requires features absent from its octos-core build: "@ + join(unknown, ", "@),
            Some("re-pin octos-tui's octos-core revision to one that defines these features"@),
        )
    }
}

/// The structural skew check: every feature the build requires must be one
/// that its protocol crate knows (`known`).
pub fn protocol_skew_check(build: &UiProtocolBuild, known: &Vec<String>) -> (c: Check)
    ensures
        c@ == protocol_skew_check_spec(
            build.protocol@,
            build.schema_version,
            strs_view(build.required_features@),
            strs_view(known@),
        ),
{
    let unknown = absent_from(&build.required_features, known);
    if unknown.len() == 0 {
        let mut detail = String::new();
        detail.append("TUI requires ");
        push_decimal(&mut detail, build.required_features.len());
        detail.append(" features; all known in ");
        detail.append(build.protocol.as_str());
        detail.append(" (schema v");
        push_decimal(&mut detail, build.schema_version as usize);
        push_char(&mut detail, ')');
        let mut value = build.protocol.clone();
        value.append(" schema v");
        push_decimal(&mut value, build.schema_version as usize);
        proof {
            reveal_strlit(")");
            assert(seq![')'] =~= ")"@);
        }
        assert(detail@ =~= "TUI requires "@ + decimal(build.required_features@.len()) + " features; all known in "@
            + build.protocol@ + " (schema v"@ + decimal(build.schema_version as nat) + ")"@);
        Check::pass(CAT_BACKEND, "protocol skew", detail.as_str()).with_value(value.as_str())
    } else {
        let list = join_from(unknown.as_slice(), 0, ", ");
        assert(strs_view(unknown@).subrange(0, unknown@.len() as int) =~= strs_view(unknown@));
        let detail = concat2(
            "TUI requires features absent from its octos-core build: ",
            list.as_str(),
        );
        Check::fail(
            CAT_BACKEND,
            "protocol skew",
            detail.as_str(),
            "re-pin octos-tui's octos-core revision to one that defines these features",
        )
    }
}

pub open spec fn compare_spec(
    server_protocol: Seq<char>,
    server_schema: u32,
    server_features: Seq<Seq<char>>,
    protocol: Seq<char>,
    schema: u32,
    required: Seq<Seq<char>>,
) -> CheckView {
    if server_protocol != protocol {
        check_of(
            CAT_BACKEND@,
            "protocol skew"@,
            CheckStatus::Fail,
            "server speaks `"@ + server_protocol + "` but the TUI speaks `"@ + protocol + "`"@,
            Some("upgrade whichever side is on the wrong protocol family"@),
        )
    } else if server_schema < schema {
        check_of(
            CAT_BACKEND@,
            "protocol skew"@,
            CheckStatus::Fail,
            "server schema v"@ + decimal(server_schema as nat) + " is older than the TUI's v"@
                + decimal(schema as nat),
            Some("upgrade the octos server (`octos update`) so its schema ≥ the client's"@),
        )
    } else if absent(required, server_features).len() == 0 {
        check_of(
            CAT_BACKEND@,
            "protocol skew"@,
            CheckStatus::Pass,
            "compatible (server schema v"@ + decimal(server_schema as nat)
                + ", all required features present)"@,
            None,
        )
    } else {
        check_of(
            CAT_BACKEND@,
            "protocol skew"@,
            CheckStatus::Warn,
            "server is missing TUI-required features: "@ + join(
                absent(required, server_features),
                ", "@,
            ),
            Some(
                "upgrade the octos server to advertise these features, or expect degraded behavior"@,
            ),
        )
    }
}

impl UiProtocolCapabilities {
    pub open spec fn compared_with(&self, build: UiProtocolBuild) -> CheckView {
        compare_spec(
            self.version.protocol@,
            self.version.schema_version,
            strs_view(self.supported_features@),
            build.protocol@,
            build.schema_version,
            strs_view(build.required_features@),
        )
    }
}

/// Compares what a server advertises with the protocol this build speaks:
/// a failure when the family differs or the server's schema is older, a
/// warning when a required feature is missing, a pass otherwise.
pub fn compare_against_server(server: &UiProtocolCapabilities, build: &UiProtocolBuild) -> (c: Check)
    ensures
        c@ == server.compared_with(*build),
{
    if server.version.protocol != build.protocol {
        let mut detail = concat3("server speaks `", server.version.protocol.as_str(), "` but the TUI speaks `");
        detail.append(build.protocol.as_str());
        detail.append("`");
        return Check::fail(
            CAT_BACKEND,
            "protocol skew",
            detail.as_str(),
            "upgrade whichever side is on the wrong protocol family",
        );
    }
    if server.version.schema_version < build.schema_version {
        let mut detail = String::new();
        detail.append("server schema v");
        push_decimal(&mut detail, server.version.schema_version as usize);
        detail.append(" is older than the TUI's v");
        push_decimal(&mut detail, build.schema_version as usize);
        return Check::fail(
            CAT_BACKEND,
            "protocol skew",
            detail.as_str(),
            "upgrade the octos server (`octos update`) so its schema ≥ the client's",
        );
    }
    let missing = absent_from(&build.required_features, &server.supported_features);
    if missing.len() == 0 {
        let mut detail = String::new();
        detail.append("compatible (server schema v");
        push_decimal(&mut detail, server.version.schema_version as usize);
        detail.append(", all required features present)");
        Check::pass(CAT_BACKEND, "protocol skew", detail.as_str())
    } else {
        let list = join_from(missing.as_slice(), 0, ", ");
        assert(strs_view(missing@).subrange(0, missing@.len() as int) =~= strs_view(missing@));
        let detail = concat2("server is missing TUI-required features: ", list.as_str());
        Check::warn(
            CAT_BACKEND,
            "protocol skew",
            detail.as_str(),
            "upgrade the octos server to advertise these features, or expect degraded behavior",
        )
    }
}

/// A server passes the skew comparison exactly when it speaks the same
/// protocol family, its schema is at least the client's, and it advertises
/// every feature the client requires.
pub proof fn law_compare_passes_iff_compatible(server: UiProtocolCapabilities, build: UiProtocolBuild)
    ensures
        server.compared_with(build).status == CheckStatus::Pass <==> {
            &&& server.version.protocol@ == build.protocol@
            &&& server.version.schema_version >= build.schema_version
            &&& forall|i: int|
                0 <= i < build.required_features@.len() ==> strs_view(
                    server.supported_features@,
                ).contains(#[trigger] build.required_features@[i]@)
        },
{
    let req = strs_view(build.required_features@);
    let have = strs_view(server.supported_features@);
    lemma_absent_empty(req, have);
    assert forall|i: int| 0 <= i < req.len() implies req[i] == build.required_features@[i]@ by {}
    if forall|i: int| 0 <= i < req.len() ==> have.contains(#[trigger] req[i]) {
        assert forall|i: int| 0 <= i < build.required_features@.len() implies have.contains(
            #[trigger] build.required_features@[i]@,
        ) by {
            assert(have.contains(req[i]));
        }
    }
    if forall|i: int|
        0 <= i < build.required_features@.len() ==> have.contains(
            #[trigger] build.required_features@[i]@,
        ) {
        assert forall|i: int| 0 <= i < req.len() implies have.contains(#[trigger] req[i]) by {
            assert(have.contains(build.required_features@[i]@));
        }
    }
}

} // verus!
