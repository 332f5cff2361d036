//! Commands to run, their outputs, and a data-driven runner that answers
//! them from canned outputs.
use vstd::prelude::*;
use crate::text::{chars_of, eq_str, push_str, string_of};

verus! {

/// What a finished command printed and how it exited.
#[derive(Debug)]
pub struct CommandOutput {
    pub exit_code: i32,
    pub stdout: Vec<u8>,
    pub stderr: Vec<u8>,
}

/// A command to run: program, arguments, working directory and time limit.
#[derive(Debug)]
pub struct CommandSpec {
    pub program: String,
    pub args: Vec<String>,
    pub working_dir: String,
    pub timeout_ms: Option<u64>,
}

/// The output `o` has exit code `code` and prints `out` and `err`.
pub open spec fn output_is(o: CommandOutput, code: i32, out: Seq<u8>, err: Seq<u8>) -> bool {
    o.exit_code == code && o.stdout@ == out && o.stderr@ == err
}

/// Two outputs are the same.
pub open spec fn same_output(a: CommandOutput, b: CommandOutput) -> bool {
    output_is(a, b.exit_code, b.stdout@, b.stderr@)
}

/// A copy of the bytes.
fn copy_bytes(v: &Vec<u8>) -> (r: Vec<u8>)
    ensures
        r@ == v@,
{
    let mut r: Vec<u8> = Vec::new();
    let mut i: usize = 0;
    while i < v.len()
        invariant
            i <= v@.len(),
            r@ == v@.take(i as int),
        decreases v@.len() - i,
    {
        r.push(v[i]);
        assert(v@.take(i + 1) =~= v@.take(i as int).push(v@[i as int]));
        i = i + 1;
    }
    assert(v@.take(v@.len() as int) =~= v@);
    r
}

impl CommandOutput {
    /// A successful run (exit code 0) that printed `stdout`.
    pub fn success(stdout: Vec<u8>) -> (o: Self)
        ensures
            output_is(o, 0, stdout@, Seq::empty()),
    {
        CommandOutput { exit_code: 0, stdout, stderr: Vec::new() }
    }

    /// A failed run with exit code `code` that printed `stderr`.
    pub fn failure(code: i32, stderr: Vec<u8>) -> (o: Self)
        ensures
            output_is(o, code, Seq::empty(), stderr@),
    {
        CommandOutput { exit_code: code, stdout: Vec::new(), stderr }
    }

    /// A copy of the output.
    pub fn duplicate(&self) -> (o: Self)
        ensures
            same_output(o, *self),
    {
        CommandOutput {
            exit_code: self.exit_code,
            stdout: copy_bytes(&self.stdout),
            stderr: copy_bytes(&self.stderr),
        }
    }
}

impl CommandSpec {
    /// Runs `program` in `working_dir`, with no arguments and no time limit.
    pub fn new(program: &str, working_dir: &str) -> (s: Self)
        ensures
            s.program@ == program@,
            s.args@.len() == 0,
            s.working_dir@ == working_dir@,
            s.timeout_ms is None,
    {
        CommandSpec {
            program: String::from_str(program),
            args: Vec::new(),
            working_dir: String::from_str(working_dir),
            timeout_ms: None,
        }
    }

    /// The same command with `args` appended.
    pub fn args(self, args: &[&str]) -> (s: Self)
        ensures
            s.program@ == self.program@,
            s.working_dir@ == self.working_dir@,
            s.timeout_ms == self.timeout_ms,
            s.args@.map_values(|a: String| a@) == self.args@.map_values(|a: String| a@)
                + crate::text::str_views(args@),
    {
        let mut s = self;
        let ghost before = s.args@.map_values(|a: String| a@);
        let mut i: usize = 0;
        while i < args.len()
            invariant
                i <= args@.len(),
                s.program@ == self.program@,
                s.working_dir@ == self.working_dir@,
                s.timeout_ms == self.timeout_ms,
                s.args@.map_values(|a: String| a@) == before + crate::text::str_views(args@).take(i as int),
            decreases args@.len() - i,
        {
            let ghost prev = s.args@.map_values(|a: String| a@);
            s.args.push(String::from_str(args[i]));
            assert(s.args@.map_values(|a: String| a@) =~= prev.push(args@[i as int]@));
            assert(crate::text::str_views(args@).take(i + 1) =~= crate::text::str_views(args@).take(
                i as int,
            ).push(args@[i as int]@));
            i = i + 1;
        }
        assert(crate::text::str_views(args@).take(args@.len() as int) =~= crate::text::str_views(args@));
        s
    }

    /// The same command with a time limit of `ms` milliseconds.
    pub fn timeout(self, ms: u64) -> (s: Self)
        ensures
            s.program@ == self.program@,
            s.args@ == self.args@,
            s.working_dir@ == self.working_dir@,
            s.timeout_ms == Some(ms),
    {
        let mut s = self;
        s.timeout_ms = Some(ms);
        s
    }
}

/// A canned answer: a program, optionally an argument prefix, and the output.
#[derive(Debug)]
pub struct Fixture {
    pub program: String,
    pub args: Option<Vec<String>>,
    pub output: CommandOutput,
}

/// A deterministic command runner for tests: it answers (program, args)
/// patterns with canned outputs.
#[derive(Debug)]
pub struct FixtureRunner {
    pub fixtures: Vec<Fixture>,
}

/// The fixture's arguments are a prefix of the command's.
pub open spec fn args_prefix(expected: Seq<String>, actual: Seq<String>) -> bool {
    &&& expected.len() <= actual.len()
    &&& forall|i: int| 0 <= i < expected.len() ==> (#[trigger] expected[i])@ == actual[i]@
}

/// The fixture answers the command: same program and, where `with_args`,
/// an argument prefix; else no arguments given.
pub open spec fn answers(f: Fixture, s: CommandSpec, with_args: bool) -> bool {
    &&& f.program@ == s.program@
    &&& if with_args {
        f.args matches Some(a) && args_prefix(a@, s.args@)
    } else {
        f.args is None
    }
}

/// The last fixture of `fs` that answers the command.
pub open spec fn last_answer(fs: Seq<Fixture>, s: CommandSpec, with_args: bool) -> Option<int>
    decreases fs.len(),
{
    if fs.len() == 0 {
        None
    } else if answers(fs.last(), s, with_args) {
        Some(fs.len() - 1)
    } else {
        last_answer(fs.drop_last(), s, with_args)
    }
}

/// The fixture that answers: the last one with matching arguments, else the
/// last one for the program alone.
pub open spec fn chosen(fs: Seq<Fixture>, s: CommandSpec) -> Option<int> {
    match last_answer(fs, s, true) {
        Some(k) => Some(k),
        None => last_answer(fs, s, false),
    }
}

/// The command line as text: program, then the arguments, each after a space.
pub open spec fn joined(args: Seq<String>) -> Seq<char>
    decreases args.len(),
{
    if args.len() == 0 {
        Seq::empty()
    } else if args.len() == 1 {
        args[0]@
    } else {
        joined(args.drop_last()) + " "@ + args.last()@
    }
}

proof fn lemma_last_answer(fs: Seq<Fixture>, s: CommandSpec, with_args: bool)
    ensures
        match last_answer(fs, s, with_args) {
            Some(k) => 0 <= k < fs.len() && answers(fs[k], s, with_args),
            None => true,
        },
    decreases fs.len(),
{
    if fs.len() > 0 && !answers(fs.last(), s, with_args) {
        lemma_last_answer(fs.drop_last(), s, with_args);
    }
}

impl FixtureRunner {
    /// A runner with no fixture.
    pub fn new() -> (r: Self)
        ensures
            r.fixtures@.len() == 0,
    {
        FixtureRunner { fixtures: Vec::new() }
    }

    /// Answers any command of `program` with `output`.
    pub fn on(self, program: &str, output: CommandOutput) -> (r: Self)
        ensures
            r.fixtures@.len() == self.fixtures@.len() + 1,
            forall|i: int| 0 <= i < self.fixtures@.len() ==> r.fixtures@[i] == self.fixtures@[i],
            r.fixtures@.last().program@ == program@,
            r.fixtures@.last().args is None,
            r.fixtures@.last().output == output,
    {
        let mut r = self;
        r.fixtures.push(Fixture { program: String::from_str(program), args: None, output });
        r
    }

    /// Answers commands of `program` whose arguments start with `args`.
    pub fn on_args(self, program: &str, args: &[&str], output: CommandOutput) -> (r: Self)
        ensures
            r.fixtures@.len() == self.fixtures@.len() + 1,
            forall|i: int| 0 <= i < self.fixtures@.len() ==> r.fixtures@[i] == self.fixtures@[i],
            r.fixtures@.last().program@ == program@,
            r.fixtures@.last().args matches Some(a) && a@.map_values(|x: String| x@)
                == crate::text::str_views(args@),
            r.fixtures@.last().output == output,
    {
        let mut v: Vec<String> = Vec::new();
        let mut i: usize = 0;
        while i < args.len()
            invariant
                i <= args@.len(),
                v@.map_values(|x: String| x@) == crate::text::str_views(args@).take(i as int),
            decreases args@.len() - i,
        {
            let ghost prev = v@.map_values(|x: String| x@);
            v.push(String::from_str(args[i]));
            assert(v@.map_values(|x: String| x@) =~= prev.push(args@[i as int]@));
            assert(crate::text::str_views(args@).take(i + 1) =~= crate::text::str_views(args@).take(
                i as int,
            ).push(args@[i as int]@));
            i = i + 1;
        }
        assert(crate::text::str_views(args@).take(args@.len() as int) =~= crate::text::str_views(args@));
        let mut r = self;
        r.fixtures.push(Fixture { program: String::from_str(program), args: Some(v), output });
        r
    }

    /// Answers `spec`: the output of the last fixture whose program and
    /// argument prefix match, else of the last fixture for the program alone;
    /// an error naming the command where none matches.
    pub fn run_command(&self, spec: &CommandSpec) -> (r: Result<CommandOutput, String>)
        ensures
            match chosen(self.fixtures@, *spec) {
                Some(k) => r matches Ok(o) && same_output(o, self.fixtures@[k].output),
                None => r matches Err(e) && e@ == "FixtureRunner: no fixture for `"@ + spec.program@
                    + " "@ + joined(spec.args@) + "`"@,
            },
    {
        let fs = &self.fixtures;
        let ghost fv = fs@;
        proof {
            lemma_last_answer(fv, *spec, true);
            lemma_last_answer(fv, *spec, false);
        }
        let mut i: usize = fs.len();
        assert(fv.take(fv.len() as int) =~= fv);
        while i > 0
            invariant
                i <= fv.len(),
                fv == fs@,
                fv == self.fixtures@,
                last_answer(fv, *spec, true) == last_answer(fv.take(i as int), *spec, true),
            decreases i,
        {
            assert(fv.take(i as int).drop_last() =~= fv.take(i - 1));
            assert(fv.take(i as int).last() == fv[i - 1]);
            let f = &fs[i - 1];
            if self.prefix_matches(f, spec) {
                return Ok(f.output.duplicate());
            }
            i = i - 1;
        }
        let mut j: usize = fs.len();
        assert(fv.take(fv.len() as int) =~= fv);
        while j > 0
            invariant
                j <= fv.len(),
                fv == fs@,
                fv == self.fixtures@,
                last_answer(fv, *spec, true) is None,
                last_answer(fv, *spec, false) == last_answer(fv.take(j as int), *spec, false),
            decreases j,
        {
            assert(fv.take(j as int).drop_last() =~= fv.take(j - 1));
            assert(fv.take(j as int).last() == fv[j - 1]);
            let f = &fs[j - 1];
            if eq_str(&chars_of(f.program.as_str()), spec.program.as_str()) && f.args.is_none() {
                return Ok(f.output.duplicate());
            }
            j = j - 1;
        }
        let mut msg: Vec<char> = Vec::new();
        push_str(&mut msg, "FixtureRunner: no fixture for `");
        push_str(&mut msg, spec.program.as_str());
        push_str(&mut msg, " ");
        let mut k: usize = 0;
        assert(spec.args@.take(0) =~= Seq::<String>::empty());
        while k < spec.args.len()
            invariant
                k <= spec.args@.len(),
                msg@ == "FixtureRunner: no fixture for `"@ + spec.program@ + " "@ + joined(spec.args@.take(k as int)),
            decreases spec.args@.len() - k,
        {
            assert(spec.args@.take(k + 1).drop_last() =~= spec.args@.take(k as int));
            assert(spec.args@.take(k + 1).last() == spec.args@[k as int]);
            if k > 0 {
                push_str(&mut msg, " ");
            }
            push_str(&mut msg, spec.args[k].as_str());
            proof {
                if k == 0 {
                    assert(joined(spec.args@.take(1)) == spec.args@[0]@);
                }
            }
            assert(msg@ =~= "FixtureRunner: no fixture for `"@ + spec.program@ + " "@ + joined(spec.args@.take(k + 1)));
            k = k + 1;
        }
        assert(spec.args@.take(spec.args@.len() as int) =~= spec.args@);
        push_str(&mut msg, "`");
        Err(string_of(&msg))
    }

    /// Whether `f` answers `spec` through its argument prefix.
    fn prefix_matches(&self, f: &Fixture, spec: &CommandSpec) -> (b: bool)
        ensures
            b == answers(*f, *spec, true),
    {
        if !eq_str(&chars_of(f.program.as_str()), spec.program.as_str()) {
            return false;
        }
        match &f.args {
            None => false,
            Some(expected) => {
                assert(f.args == Some(*expected));
                if expected.len() > spec.args.len() {
                    return false;
                }
                let mut i: usize = 0;
                while i < expected.len()
                    invariant
                        f.args == Some(*expected),
                        i <= expected@.len(),
                        expected@.len() <= spec.args@.len(),
                        forall|q: int| 0 <= q < i ==> (#[trigger] expected@[q])@ == spec.args@[q]@,
                    decreases expected@.len() - i,
                {
                    if !eq_str(&chars_of(expected[i].as_str()), spec.args[i].as_str()) {
                        assert(expected@[i as int]@ != spec.args@[i as int]@);
                        assert(!args_prefix(expected@, spec.args@));
                        return false;
                    }
                    i = i + 1;
                }
                true
            },
        }
    }
}

impl Default for FixtureRunner {
    fn default() -> (r: Self)
        ensures
            r.fixtures@.len() == 0,
    {
        FixtureRunner::new()
    }
}

} // verus!
