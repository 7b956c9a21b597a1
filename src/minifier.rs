//! The minification strategies: which command runs on a file, and whether
//! what it reports fails the build.
use vstd::prelude::*;
use crate::bytes::same_bytes;

verus! {

/// The built-in minifier's program.
pub open spec fn default_program() -> Seq<u8> {
    seq![104u8, 116u8, 109u8, 108u8, 45u8, 109u8, 105u8, 110u8, 105u8, 102u8, 105u8, 101u8, 114u8]
}

/// The built-in minifier's fixed flag.
pub open spec fn collapse_flag() -> Seq<u8> {
    seq![45u8, 45u8, 99u8, 111u8, 108u8, 108u8, 97u8, 112u8, 115u8, 101u8, 45u8, 119u8, 104u8, 105u8, 116u8, 101u8, 115u8, 112u8, 97u8, 99u8, 101u8]
}

/// The flag that names the output file.
pub open spec fn out_flag() -> Seq<u8> {
    seq![45u8, 111u8]
}

/// Selector of the built-in minifier.
pub open spec fn html_minifier_name() -> Seq<u8> {
    seq![72u8, 84u8, 77u8, 76u8, 77u8, 105u8, 110u8, 105u8, 102u8, 105u8, 101u8, 114u8]
}

/// Selector of a custom, checked command.
pub open spec fn custom_name() -> Seq<u8> {
    seq![67u8, 117u8, 115u8, 116u8, 111u8, 109u8]
}

/// Selector of a custom, unchecked command.
pub open spec fn custom_unchecked_name() -> Seq<u8> {
    seq![67u8, 117u8, 115u8, 116u8, 111u8, 109u8, 85u8, 110u8, 99u8, 104u8, 101u8, 99u8, 107u8, 101u8, 100u8]
}

/// A minification strategy. A command line is a program name and its
/// arguments, separated by single spaces.
#[derive(Clone, Debug, PartialEq, Eq)]
pub enum Minifier {
    /// The built-in minifier with fixed arguments.
    HTMLMinifier,
    /// A custom command whose error stream must stay empty.
    Custom(Vec<u8>),
    /// A custom command whose error stream is ignored.
    CustomUnchecked(Vec<u8>),
}

/// The strategy used for a whole walk.
#[derive(Clone, Debug)]
pub struct MinifyOptions {
    pub minifier: Minifier,
}

/// What a run of the minifier gave: whether its process started, and what it
/// wrote to its error stream.
#[derive(Clone, Debug, PartialEq, Eq)]
pub struct ProcessReport {
    pub started: bool,
    pub stderr: Vec<u8>,
}

/// Why a minification failed.
#[derive(Clone, Debug, PartialEq, Eq)]
pub enum MinifyError {
    /// The process could not be started.
    NotStarted,
    /// A checked strategy's command wrote this to its error stream.
    Diagnostics(Vec<u8>),
}

/// Why a minifier selector was refused.
#[derive(Clone, Debug, PartialEq, Eq)]
pub enum ConfigError {
    UnknownMinifier(Vec<u8>),
}

/// `s` cut at every space, empty pieces kept.
pub open spec fn split_spaces(s: Seq<u8>) -> Seq<Seq<u8>>
    decreases s.len(),
{
    if s.len() == 0 {
        seq![Seq::empty()]
    } else {
        let p = split_spaces(s.drop_last());
        if s.last() == 32u8 {
            p.push(Seq::empty())
        } else {
            p.update(p.len() - 1, p.last().push(s.last()))
        }
    }
}

/// The command line that minifies `input` into `output` under `m`: for a
/// custom command, its words followed by the input, `-o` and the output.
pub open spec fn command_line(m: Minifier, input: Seq<u8>, output: Seq<u8>) -> Seq<Seq<u8>> {
    match m {
        Minifier::HTMLMinifier => seq![default_program(), collapse_flag(), input, out_flag(), output],
        Minifier::Custom(c) => split_spaces(c@) + seq![input, out_flag(), output],
        Minifier::CustomUnchecked(c) => split_spaces(c@) + seq![input, out_flag(), output],
    }
}

/// Strategies whose command must leave its error stream empty.
pub open spec fn is_checked(m: Minifier) -> bool {
    !(m is CustomUnchecked)
}

/// The result of a minifier run under `m`: a process that did not start
/// fails; under a checked strategy, so does any diagnostic text.
pub open spec fn outcome(m: Minifier, started: bool, stderr: Seq<u8>) -> Result<(), Seq<u8>> {
    if !started {
        Err(Seq::empty())
    } else if is_checked(m) && stderr.len() > 0 {
        Err(stderr)
    } else {
        Ok(())
    }
}

pub open spec fn deep(vs: Seq<Vec<u8>>) -> Seq<Seq<u8>> {
    vs.map_values(|v: Vec<u8>| v@)
}

proof fn lemma_split_nonempty(s: Seq<u8>)
    ensures
        split_spaces(s).len() >= 1,
    decreases s.len(),
{
    if s.len() > 0 {
        lemma_split_nonempty(s.drop_last());
    }
}

fn default_program_bytes() -> (r: Vec<u8>)
    ensures
        r@ == default_program(),
{
    let r = vec![104u8, 116u8, 109u8, 108u8, 45u8, 109u8, 105u8, 110u8, 105u8, 102u8, 105u8, 101u8, 114u8];
    assert(r@ =~= default_program());
    r
}

fn collapse_flag_bytes() -> (r: Vec<u8>)
    ensures
        r@ == collapse_flag(),
{
    let r = vec![45u8, 45u8, 99u8, 111u8, 108u8, 108u8, 97u8, 112u8, 115u8, 101u8, 45u8, 119u8, 104u8, 105u8, 116u8, 101u8, 115u8, 112u8, 97u8, 99u8, 101u8];
    assert(r@ =~= collapse_flag());
    r
}

fn out_flag_bytes() -> (r: Vec<u8>)
    ensures
        r@ == out_flag(),
{
    let r = vec![45u8, 111u8];
    assert(r@ =~= out_flag());
    r
}

fn html_minifier_name_bytes() -> (r: Vec<u8>)
    ensures
        r@ == html_minifier_name(),
{
    let r = vec![72u8, 84u8, 77u8, 76u8, 77u8, 105u8, 110u8, 105u8, 102u8, 105u8, 101u8, 114u8];
    assert(r@ =~= html_minifier_name());
    r
}

fn custom_name_bytes() -> (r: Vec<u8>)
    ensures
        r@ == custom_name(),
{
    let r = vec![67u8, 117u8, 115u8, 116u8, 111u8, 109u8];
    assert(r@ =~= custom_name());
    r
}

fn custom_unchecked_name_bytes() -> (r: Vec<u8>)
    ensures
        r@ == custom_unchecked_name(),
{
    let r = vec![67u8, 117u8, 115u8, 116u8, 111u8, 109u8, 85u8, 110u8, 99u8, 104u8, 101u8, 99u8, 107u8, 101u8, 100u8];
    assert(r@ =~= custom_unchecked_name());
    r
}

/// Cuts `s` at every space, keeping empty pieces.
pub fn split_command(s: &Vec<u8>) -> (r: Vec<Vec<u8>>)
    ensures
        deep(r@) == split_spaces(s@),
{
    let mut pieces: Vec<Vec<u8>> = Vec::new();
    let mut cur: Vec<u8> = Vec::new();
    let mut i: usize = 0;
    while i < s.len()
        invariant
            i <= s.len(),
            deep(pieces@).push(cur@) == split_spaces(s@.subrange(0, i as int)),
        decreases s.len() - i,
    {
        let ghost before = s@.subrange(0, i as int);
        assert(s@.subrange(0, i + 1).drop_last() =~= before);
        assert(s@.subrange(0, i + 1).last() == s@[i as int]);
        proof {
            lemma_split_nonempty(before);
        }
        if s[i] == 32u8 {
            let done = cur;
            pieces.push(done);
            cur = Vec::new();
            assert(deep(pieces@).push(cur@) =~= split_spaces(before).push(Seq::empty()));
        } else {
            let ghost p = split_spaces(before);
            cur.push(s[i]);
            assert(deep(pieces@).push(cur@) =~= p.update(p.len() - 1, p.last().push(s@[i as int])));
        }
        i = i + 1;
    }
    assert(s@.subrange(0, s@.len() as int) =~= s@);
    pieces.push(cur);
    assert(deep(pieces@) =~= split_spaces(s@));
    pieces
}

impl MinifyOptions {
    /// The command line that minifies `input` into `output`.
    pub fn command_line(&self, input: &Vec<u8>, output: &Vec<u8>) -> (r: Vec<Vec<u8>>)
        ensures
            deep(r@) == command_line(self.minifier, input@, output@),
    {
        let mut r: Vec<Vec<u8>> = match &self.minifier {
            Minifier::HTMLMinifier => {
                let mut v: Vec<Vec<u8>> = Vec::new();
                v.push(default_program_bytes());
                v.push(collapse_flag_bytes());
                v
            },
            Minifier::Custom(c) => split_command(c),
            Minifier::CustomUnchecked(c) => split_command(c),
        };
        let ghost head = deep(r@);
        r.push(input.clone());
        r.push(out_flag_bytes());
        r.push(output.clone());
        assert(deep(r@) =~= head + seq![input@, out_flag(), output@]);
        assert(deep(r@) =~= command_line(self.minifier, input@, output@));
        r
    }

    /// Decides whether a minifier run succeeded under this strategy.
    pub fn check_report(&self, report: &ProcessReport) -> (r: Result<(), MinifyError>)
        ensures
            r.is_ok() == outcome(self.minifier, report.started, report.stderr@).is_ok(),
            !report.started ==> r == Err::<(), MinifyError>(MinifyError::NotStarted),
            report.started && r.is_err() ==> (r matches Err(MinifyError::Diagnostics(d))
                && d@ == report.stderr@),
    {
        if !report.started {
            return Err(MinifyError::NotStarted);
        }
        let checked = match &self.minifier {
            Minifier::CustomUnchecked(_) => false,
            _ => true,
        };
        if checked && report.stderr.len() > 0 {
            Err(MinifyError::Diagnostics(report.stderr.clone()))
        } else {
            Ok(())
        }
    }
}

/// Picks a strategy from a selector name and its command, if it has one:
/// the built-in minifier takes no command, the two custom strategies take one,
/// and any other combination is refused.
pub fn select_minifier(name: &Vec<u8>, command: Option<Vec<u8>>) -> (r: Result<Minifier, ConfigError>)
    ensures
        match r {
            Ok(m) => match command {
                None => name@ == html_minifier_name() && m == Minifier::HTMLMinifier,
                Some(c) => (name@ == custom_name() && m == Minifier::Custom(c)) || (name@
                    == custom_unchecked_name() && m == Minifier::CustomUnchecked(c)),
            },
            Err(e) => (e matches ConfigError::UnknownMinifier(n) && n@ == name@) && !(match command {
                None => name@ == html_minifier_name(),
                Some(_) => name@ == custom_name() || name@ == custom_unchecked_name(),
            }),
        },
{
    match command {
        None => {
            if same_bytes(name, &html_minifier_name_bytes()) {
                Ok(Minifier::HTMLMinifier)
            } else {
                Err(ConfigError::UnknownMinifier(name.clone()))
            }
        },
        Some(c) => {
            if same_bytes(name, &custom_name_bytes()) {
                Ok(Minifier::Custom(c))
            } else if same_bytes(name, &custom_unchecked_name_bytes()) {
                Ok(Minifier::CustomUnchecked(c))
            } else {
                Err(ConfigError::UnknownMinifier(name.clone()))
            }
        },
    }
}

/// A command that reports diagnostics but runs is accepted under the
/// unchecked strategy and refused under the checked one.
pub proof fn lemma_unchecked_tolerates_diagnostics(command: Vec<u8>, stderr: Seq<u8>)
    requires
        stderr.len() > 0,
    ensures
        outcome(Minifier::CustomUnchecked(command), true, stderr) is Ok,
        outcome(Minifier::Custom(command), true, stderr) == Err::<(), Seq<u8>>(stderr),
{
}

} // verus!
