//! Data model of the grading run: the declared exercises and tests, the
//! loaded solution files, the resolved runtime, and the verdicts and errors
//! the run can produce.

use vstd::prelude::*;

verus! {

/// One test of an exercise: a name used to label its verdicts, the inputs
/// submitted to the execution service, and the expected outputs each
/// execution result is compared against (every input against every output).
pub struct Test {
    pub test_name: String,
    pub input: Vec<String>,
    pub output: Vec<String>,
}

/// Mathematical view of a [`Test`].
pub struct TestView {
    pub test_name: Seq<char>,
    pub input: Seq<Seq<char>>,
    pub output: Seq<Seq<char>>,
}

impl View for Test {
    type V = TestView;

    open spec fn view(&self) -> TestView {
        TestView {
            test_name: self.test_name@,
            input: self.input.deep_view(),
            output: self.output.deep_view(),
        }
    }
}

impl DeepView for Test {
    type V = TestView;

    open spec fn deep_view(&self) -> TestView {
        self.view()
    }
}

/// One declared exercise: its name, which must equal the name of a solution
/// file, and its tests in declared order.
pub struct Exercise {
    pub name: String,
    pub test: Vec<Test>,
}

/// Mathematical view of an [`Exercise`].
pub struct ExerciseView {
    pub name: Seq<char>,
    pub test: Seq<TestView>,
}

impl View for Exercise {
    type V = ExerciseView;

    open spec fn view(&self) -> ExerciseView {
        ExerciseView { name: self.name@, test: self.test.deep_view() }
    }
}

impl DeepView for Exercise {
    type V = ExerciseView;

    open spec fn deep_view(&self) -> ExerciseView {
        self.view()
    }
}

/// The whole parsed configuration: the exercises in declared order.
pub struct Module {
    pub exercise: Vec<Exercise>,
}

/// Mathematical view of a [`Module`].
pub struct ModuleView {
    pub exercise: Seq<ExerciseView>,
}

impl View for Module {
    type V = ModuleView;

    open spec fn view(&self) -> ModuleView {
        ModuleView { exercise: self.exercise.deep_view() }
    }
}

/// One candidate solution read from the solution directory: the entry's base
/// name and its full text content.
pub struct SolutionFile {
    pub name: String,
    pub content: String,
}

/// Mathematical view of a [`SolutionFile`].
pub struct SolutionFileView {
    pub name: Seq<char>,
    pub content: Seq<char>,
}

impl View for SolutionFile {
    type V = SolutionFileView;

    open spec fn view(&self) -> SolutionFileView {
        SolutionFileView { name: self.name@, content: self.content@ }
    }
}

impl DeepView for SolutionFile {
    type V = SolutionFileView;

    open spec fn deep_view(&self) -> SolutionFileView {
        self.view()
    }
}

/// A runtime of the execution service's catalog: a language, the version the
/// service runs it at, and the aliases the service accepts for it.
pub struct Runtime {
    pub language: String,
    pub version: String,
    pub aliases: Vec<String>,
}

/// Mathematical view of a [`Runtime`].
pub struct RuntimeView {
    pub language: Seq<char>,
    pub version: Seq<char>,
    pub aliases: Seq<Seq<char>>,
}

impl View for Runtime {
    type V = RuntimeView;

    open spec fn view(&self) -> RuntimeView {
        RuntimeView {
            language: self.language@,
            version: self.version@,
            aliases: self.aliases.deep_view(),
        }
    }
}

impl DeepView for Runtime {
    type V = RuntimeView;

    open spec fn deep_view(&self) -> RuntimeView {
        self.view()
    }
}

/// The outcome of comparing one execution output against one expected
/// output, labeled with the test's name.
pub struct Verdict {
    pub test_name: String,
    pub passed: bool,
}

/// Mathematical view of a [`Verdict`].
pub struct VerdictView {
    pub test_name: Seq<char>,
    pub passed: bool,
}

impl View for Verdict {
    type V = VerdictView;

    open spec fn view(&self) -> VerdictView {
        VerdictView { test_name: self.test_name@, passed: self.passed }
    }
}

impl DeepView for Verdict {
    type V = VerdictView;

    open spec fn deep_view(&self) -> VerdictView {
        self.view()
    }
}

/// The ways a grading run can fail. Each stage of the run produces its own
/// variant, and the run aborts on the first error it meets.
#[derive(Clone, Copy, Debug, PartialEq, Eq, Structural)]
pub enum GradeError {
    /// The configuration text is malformed or misses a required field.
    Config,
    /// The solution directory or one of its entries cannot be read.
    FileSystem,
    /// No runtime of the catalog has the requested language.
    RuntimeNotFound,
    /// A declared exercise has no solution file of the same name.
    ExerciseFileMissing,
    /// The remote execution service could not be reached.
    Transport,
    /// The remote execution service answered in an unexpected shape.
    ResponseFormat,
}

impl GradeError {
    /// A diagnostic line naming the stage that failed.
    pub fn describe(&self) -> (r: String)
        ensures
            r@.len() > 0,
    {
        let s = match self {
            GradeError::Config => "malformed rules configuration",
            GradeError::FileSystem => "cannot read the solution directory",
            GradeError::RuntimeNotFound => "no runtime matches the requested language",
            GradeError::ExerciseFileMissing => "an exercise has no matching solution file",
            GradeError::Transport => "the execution service could not be reached",
            GradeError::ResponseFormat => "the execution service answered in an unexpected shape",
        };
        proof {
            reveal_strlit("malformed rules configuration");
            reveal_strlit("cannot read the solution directory");
            reveal_strlit("no runtime matches the requested language");
            reveal_strlit("an exercise has no matching solution file");
            reveal_strlit("the execution service could not be reached");
            reveal_strlit("the execution service answered in an unexpected shape");
        }
        s.to_owned()
    }
}

} // verus!
