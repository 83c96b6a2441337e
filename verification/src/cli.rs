//! The command line: what the words given to the program ask for, and what
//! is to be done about it.
use vstd::prelude::*;
use vstd::std_specs::iter::IteratorSpec;
use vstd::std_specs::convert::FromSpecImpl;
use crate::text::text_same;

verus! {

/// What kind of help is asked for.
#[derive(Debug, Eq, PartialEq, Clone, Copy, Structural)]
pub enum HelpKind {
    /// How to use the program.
    SimpleHelp,
    /// Help on one mode, given by its number; a negative number stands for
    /// a word that names no mode.
    ModeHelp(isize),
    /// How to ask for help.
    HelpHelp,
}

impl Default for HelpKind {
    fn default() -> (kind: HelpKind)
        ensures
            kind == HelpKind::SimpleHelp,
    {
        HelpKind::SimpleHelp
    }
}

/// What the program is asked to do.
#[derive(Debug, Eq, PartialEq, Clone, Copy, Structural)]
pub enum Mode {
    /// Explain how to ask for help.
    HelpHelp,
    /// Give help.
    Help(HelpKind),
    /// Open a catalog file and start an interactive session on it.
    Open,
    /// Create a catalog file.
    Create,
    /// Start an interactive session on no file.
    EmptyRepl,
}

impl Default for Mode {
    fn default() -> (mode: Mode)
        ensures
            mode == Mode::Help(HelpKind::SimpleHelp),
    {
        Mode::Help(HelpKind::SimpleHelp)
    }
}

impl Mode {
    /// The number of the mode.
    pub open spec fn code(self) -> isize {
        match self {
            Mode::HelpHelp => isize::MAX,
            Mode::Help(_) => 0,
            Mode::Open => 1,
            Mode::Create => 2,
            Mode::EmptyRepl => 3,
        }
    }
}

impl From<Mode> for isize {
    /// The number of the mode.
    fn from(mode: Mode) -> (code: isize)
    {
        match mode {
            Mode::HelpHelp => isize::MAX,
            Mode::Help(_) => 0,
            Mode::Open => 1,
            Mode::Create => 2,
            Mode::EmptyRepl => 3,
        }
    }
}

impl FromSpecImpl<Mode> for isize {
    open spec fn obeys_from_spec() -> bool {
        true
    }

    open spec fn from_spec(mode: Mode) -> isize {
        mode.code()
    }
}

/// The help that a word asks for: the help on the mode that the word
/// names, with -1 for a word that names none.
pub open spec fn help_for(word: Seq<char>) -> HelpKind {
    if word == "help"@ {
        HelpKind::ModeHelp(0)
    } else if word == "open"@ {
        HelpKind::ModeHelp(1)
    } else if word == "create"@ {
        HelpKind::ModeHelp(2)
    } else if word == "repl"@ {
        HelpKind::ModeHelp(3)
    } else {
        HelpKind::ModeHelp(-1isize)
    }
}

impl<'a> From<&'a str> for HelpKind {
    /// The help that a word asks for.
    fn from(it: &'a str) -> (kind: HelpKind)
    {
        if text_same(it, "help") {
            HelpKind::ModeHelp(0)
        } else if text_same(it, "open") {
            HelpKind::ModeHelp(1)
        } else if text_same(it, "create") {
            HelpKind::ModeHelp(2)
        } else if text_same(it, "repl") {
            HelpKind::ModeHelp(3)
        } else {
            HelpKind::ModeHelp(-1)
        }
    }
}

impl<'a> FromSpecImpl<&'a str> for HelpKind {
    open spec fn obeys_from_spec() -> bool {
        true
    }

    open spec fn from_spec(it: &'a str) -> HelpKind {
        help_for(it@)
    }
}

/// The words that follow the mode.
#[derive(Default, Debug, Clone, Eq, PartialEq)]
pub struct Args(pub Vec<String>);

/// Named settings, each a name and a value.
#[derive(Default, Debug, Clone, Eq, PartialEq)]
pub struct Kwargs(pub Vec<(String, String)>);

/// What a list of words stands for.
pub open spec fn words(list: Seq<String>) -> Seq<Seq<char>> {
    list.map_values(|word: String| word@)
}

/// What a list of settings stands for.
pub open spec fn settings(list: Seq<(String, String)>) -> Seq<(Seq<char>, Seq<char>)> {
    list.map_values(|pair: (String, String)| (pair.0@, pair.1@))
}

/// A request as a mathematical value.
pub struct Request {
    pub mode: Mode,
    pub args: Option<Seq<Seq<char>>>,
    pub kwargs: Option<Seq<(Seq<char>, Seq<char>)>>,
}

impl Request {
    /// The request for a mode, with no words and no settings.
    pub open spec fn bare(mode: Mode) -> Request {
        Request { mode, args: None, kwargs: None }
    }
}

/// What the program is asked to do, and with what.
#[derive(Debug, Eq, PartialEq, Clone)]
pub struct Operation {
    pub mode: Mode,
    pub args: Option<Args>,
    pub kwargs: Option<Kwargs>,
}

impl View for Operation {
    type V = Request;

    open spec fn view(&self) -> Request {
        Request {
            mode: self.mode,
            args: match self.args {
                Some(args) => Some(words(args.0@)),
                None => None,
            },
            kwargs: match self.kwargs {
                Some(kwargs) => Some(settings(kwargs.0@)),
                None => None,
            },
        }
    }
}

impl Default for Operation {
    /// The request for simple help.
    fn default() -> (op: Operation)
        ensures
            op@ == Request::bare(Mode::Help(HelpKind::SimpleHelp)),
    {
        Operation { mode: Mode::Help(HelpKind::SimpleHelp), args: None, kwargs: None }
    }
}

impl Operation {
    /// A builder of requests.
    pub fn builder() -> (builder: OperationBuilder)
        ensures
            builder.op@ == Request::bare(Mode::Help(HelpKind::SimpleHelp)),
    {
        OperationBuilder { op: Operation::default() }
    }
}

/// Collects the parts of a request. A part that is not given keeps its
/// default: simple help, no words, no settings.
pub struct OperationBuilder {
    pub op: Operation,
}

impl OperationBuilder {
    /// Gives the mode.
    pub fn mode(self, mode: Mode) -> (builder: OperationBuilder)
        ensures
            builder.op@ == (Request { mode, ..self.op@ }),
    {
        OperationBuilder { op: Operation { mode, args: self.op.args, kwargs: self.op.kwargs } }
    }

    /// Gives the words.
    pub fn args(self, args: Args) -> (builder: OperationBuilder)
        ensures
            builder.op@ == (Request { args: Some(words(args.0@)), ..self.op@ }),
    {
        OperationBuilder {
            op: Operation { mode: self.op.mode, args: Some(args), kwargs: self.op.kwargs },
        }
    }

    /// Gives the settings.
    pub fn kwargs(self, kwargs: Kwargs) -> (builder: OperationBuilder)
        ensures
            builder.op@ == (Request { kwargs: Some(settings(kwargs.0@)), ..self.op@ }),
    {
        OperationBuilder {
            op: Operation { mode: self.op.mode, args: self.op.args, kwargs: Some(kwargs) },
        }
    }

    /// The request with the parts given.
    pub fn build(self) -> (op: Operation)
        ensures
            op == self.op,
    {
        self.op
    }
}

/// The ASCII lower case of a character: the letters `A` to `Z` become `a`
/// to `z`, every other character stays.
pub open spec fn lower_char(c: char) -> char {
    if 'A' <= c && c <= 'Z' {
        ((c as u8) + 32) as char
    } else {
        c
    }
}

/// The ASCII lower case of a text, character by character.
pub open spec fn lower(text: Seq<char>) -> Seq<char> {
    text.map_values(|c: char| lower_char(c))
}

/// Whether a text holds two hyphens in a row.
pub open spec fn double_dashed(text: Seq<char>) -> bool {
    exists|i: int| 0 <= i && i + 1 < text.len() && #[trigger] text[i] == '-' && text[i + 1] == '-'
}

/// Whether any of the words, in lower case, holds two hyphens in a row.
pub open spec fn any_double_dashed(argv: Seq<Seq<char>>) -> bool {
    exists|i: int| 0 <= i < argv.len() && double_dashed(lower(#[trigger] argv[i]))
}

/// The request for a single word: a create request without a path for
/// `create`, help on opening for `open`, a session on no file for `repl`,
/// simple help for any other word.
pub open spec fn parse_single(word: Seq<char>) -> Request {
    if word == "create"@ {
        Request::bare(Mode::Create)
    } else if word == "open"@ {
        Request::bare(Mode::Help(HelpKind::ModeHelp(1)))
    } else if word == "repl"@ {
        Request::bare(Mode::EmptyRepl)
    } else {
        Request::bare(Mode::Help(HelpKind::SimpleHelp))
    }
}

/// The request for `help` followed by a topic.
pub open spec fn parse_help(topic: Seq<char>) -> Request {
    if topic == "create"@ {
        Request::bare(Mode::Create)
    } else if topic == "repl"@ {
        Request::bare(Mode::Help(HelpKind::ModeHelp(3)))
    } else if topic == "open"@ {
        Request::bare(Mode::Help(HelpKind::ModeHelp(1)))
    } else if topic == "help"@ {
        Request::bare(Mode::HelpHelp)
    } else {
        Request::bare(Mode::Help(HelpKind::SimpleHelp))
    }
}

/// The mode that the first of several words names, if it names one.
pub open spec fn named_mode(word: Seq<char>) -> Option<Mode> {
    if word == "create"@ {
        Some(Mode::Create)
    } else if word == "repl"@ {
        Some(Mode::EmptyRepl)
    } else if word == "open"@ {
        Some(Mode::Open)
    } else {
        None
    }
}

/// The request that the words of a command line stand for. The first word
/// names the mode, whatever the case of its letters. No word is simple help.
/// A single word is read by `parse_single`. `help` is followed by a topic.
/// A word that names a mode is followed by the words the mode works on,
/// unless any word holds two hyphens in a row: settings are not read yet,
/// and the answer is simple help. Any other first word is simple help.
pub open spec fn parse(argv: Seq<Seq<char>>) -> Request {
    if argv.len() == 0 {
        Request::bare(Mode::Help(HelpKind::SimpleHelp))
    } else if argv.len() == 1 {
        parse_single(lower(argv[0]))
    } else if lower(argv[0]) == "help"@ {
        parse_help(lower(argv[1]))
    } else {
        match named_mode(lower(argv[0])) {
            Some(mode) => if any_double_dashed(argv) {
                Request::bare(Mode::Help(HelpKind::SimpleHelp))
            } else {
                Request { mode, args: Some(argv.skip(1)), kwargs: None }
            },
            None => Request::bare(Mode::Help(HelpKind::SimpleHelp)),
        }
    }
}

/// The ASCII lower case of a text; calls `str::to_ascii_lowercase`, which
/// maps the letters `A` to `Z` to `a` to `z` and leaves every other
/// character as it is.
#[verifier::external_body]
fn ascii_lowercase(text: &str) -> (r: String)
    ensures
        r@ == lower(text@),
{
    text.to_ascii_lowercase()
}

/// Whether a text holds two hyphens in a row.
pub fn has_double_dash(text: &str) -> (found: bool)
    ensures
        found == double_dashed(text@),
{
    let mut rest = text.chars();
    let mut after_dash = false;
    let ghost mut n: int = 0;
    loop
        invariant
            0 <= n <= text@.len(),
            rest.remaining() == text@.skip(n),
            rest.decrease() is Some,
            after_dash == (n > 0 && text@[n - 1] == '-'),
            forall|i: int| 0 <= i && i + 1 < n ==> !(#[trigger] text@[i] == '-' && text@[i + 1] == '-'),
        decreases rest.decrease()->0,
    {
        match rest.next() {
            None => {
                assert(n == text@.len());
                return false;
            },
            Some(c) => {
                assert(c == text@[n]);
                if after_dash && c == '-' {
                    assert(text@[n - 1] == '-' && text@[n - 1 + 1] == '-');
                    return true;
                }
                after_dash = c == '-';
                proof {
                    assert(text@.skip(n).drop_first() =~= text@.skip(n + 1));
                    n = n + 1;
                }
            },
        }
    }
}

/// The request for a session on no file.
pub fn op_repl() -> (op: Operation)
    ensures
        op@ == Request::bare(Mode::EmptyRepl),
{
    Operation::builder().mode(Mode::EmptyRepl).build()
}

/// The request that `create` by itself stands for: a create request
/// without a path.
pub fn op_help_create() -> (op: Operation)
    ensures
        op@ == Request::bare(Mode::Create),
{
    Operation::builder().mode(Mode::Create).build()
}

/// The request for help on opening a file.
pub fn op_help_open() -> (op: Operation)
    ensures
        op@ == Request::bare(Mode::Help(HelpKind::ModeHelp(1))),
{
    let op_code = isize::from(Mode::Open);
    Operation::builder().mode(Mode::Help(HelpKind::ModeHelp(op_code))).build()
}

/// The request for an explanation of how to ask for help.
pub fn op_help_help() -> (op: Operation)
    ensures
        op@ == Request::bare(Mode::HelpHelp),
{
    Operation::builder().mode(Mode::HelpHelp).build()
}

/// The request for help on interactive sessions.
pub fn op_help_repl() -> (op: Operation)
    ensures
        op@ == Request::bare(Mode::Help(HelpKind::ModeHelp(3))),
{
    let op_code = isize::from(Mode::EmptyRepl);
    Operation::builder().mode(Mode::Help(HelpKind::ModeHelp(op_code))).build()
}

/// Reads the words of a command line, the name of the program left out.
pub fn parse_cli(argv: Vec<String>) -> (op: Operation)
    ensures
        op@ == parse(words(argv@)),
{
    if argv.len() == 0 {
        return Operation::default();
    }
    let first = ascii_lowercase(argv[0].as_str());
    if argv.len() == 1 {
        if text_same(first.as_str(), "create") {
            return op_help_create();
        } else if text_same(first.as_str(), "open") {
            return op_help_open();
        } else if text_same(first.as_str(), "repl") {
            return op_repl();
        } else {
            return Operation::default();
        }
    }
    let mode = if text_same(first.as_str(), "create") {
        Mode::Create
    } else if text_same(first.as_str(), "repl") {
        Mode::EmptyRepl
    } else if text_same(first.as_str(), "open") {
        Mode::Open
    } else if text_same(first.as_str(), "help") {
        let topic = ascii_lowercase(argv[1].as_str());
        if text_same(topic.as_str(), "create") {
            return op_help_create();
        } else if text_same(topic.as_str(), "repl") {
            return op_help_repl();
        } else if text_same(topic.as_str(), "open") {
            return op_help_open();
        } else if text_same(topic.as_str(), "help") {
            return op_help_help();
        } else {
            return Operation::default();
        }
    } else {
        return Operation::default();
    };
    proof {
        reveal_strlit("create");
        reveal_strlit("repl");
        reveal_strlit("open");
        reveal_strlit("help");
        assert("create"@.len() != "help"@.len());
        assert("repl"@[0] != "help"@[0]);
        assert("open"@[0] != "help"@[0]);
        assert(words(argv@)[0] == argv@[0]@);
    }
    let mut i: usize = 0;
    while i < argv.len()
        invariant
            i <= argv@.len(),
            argv@.len() >= 2,
            lower(words(argv@)[0]) != "help"@,
            named_mode(lower(words(argv@)[0])) == Some(mode),
            forall|k: int| 0 <= k < i ==> !double_dashed(lower(#[trigger] words(argv@)[k])),
        decreases argv@.len() - i,
    {
        let word = ascii_lowercase(argv[i].as_str());
        if has_double_dash(word.as_str()) {
            assert(double_dashed(lower(words(argv@)[i as int])));
            return Operation::default();
        }
        i = i + 1;
    }
    let mut rest: Vec<String> = Vec::new();
    let mut j: usize = 1;
    while j < argv.len()
        invariant
            1 <= j <= argv@.len(),
            lower(words(argv@)[0]) != "help"@,
            named_mode(lower(words(argv@)[0])) == Some(mode),
            !any_double_dashed(words(argv@)),
            rest@.len() == j - 1,
            forall|k: int| 0 <= k < rest@.len() ==> (#[trigger] rest@[k])@ == argv@[k + 1]@,
        decreases argv@.len() - j,
    {
        rest.push(argv[j].clone());
        j = j + 1;
    }
    assert(words(rest@) =~= words(argv@).skip(1));
    Operation::builder().mode(mode).args(Args(rest)).build()
}

/// What is to be done about a request.
#[derive(Debug, Eq, PartialEq, Clone)]
pub enum Action {
    /// Print help of the given kind.
    PrintHelp(HelpKind),
    /// Print how to ask for help.
    PrintManual,
    /// Start an interactive session.
    StartRepl,
    /// Create the catalog file at the given path and save it.
    CreateFile(String),
}

/// An action as a mathematical value.
pub enum Deed {
    PrintHelp(HelpKind),
    PrintManual,
    StartRepl,
    CreateFile(Seq<char>),
}

impl View for Action {
    type V = Deed;

    open spec fn view(&self) -> Deed {
        match self {
            Action::PrintHelp(kind) => Deed::PrintHelp(*kind),
            Action::PrintManual => Deed::PrintManual,
            Action::StartRepl => Deed::StartRepl,
            Action::CreateFile(path) => Deed::CreateFile(path@),
        }
    }
}

impl Request {
    /// Whether the request can be acted on: a create request has to come
    /// with a path, the first of its words.
    pub open spec fn actionable(self) -> bool {
        self.mode is Create ==> self.args is Some && self.args->0.len() > 0
    }

    /// What is to be done about the request.
    pub open spec fn deed(self) -> Deed {
        match self.mode {
            Mode::Help(kind) => Deed::PrintHelp(kind),
            Mode::HelpHelp => Deed::PrintManual,
            Mode::EmptyRepl => Deed::StartRepl,
            Mode::Open => Deed::StartRepl,
            Mode::Create => Deed::CreateFile(self.args->0[0]),
        }
    }
}

/// Whether a request can be acted on.
pub fn is_actionable(op: &Operation) -> (r: bool)
    ensures
        r == op@.actionable(),
{
    match op.mode {
        Mode::Create => match &op.args {
            Some(args) => args.0.len() > 0,
            None => false,
        },
        _ => true,
    }
}

/// Decides what is to be done about a request. A create request has to
/// come with a path.
pub fn dispatch(op: &Operation) -> (action: Action)
    requires
        op@.actionable(),
    ensures
        action@ == op@.deed(),
{
    match op.mode {
        Mode::Help(kind) => Action::PrintHelp(kind),
        Mode::HelpHelp => Action::PrintManual,
        Mode::EmptyRepl => Action::StartRepl,
        Mode::Open => Action::StartRepl,
        Mode::Create => match &op.args {
            Some(args) => Action::CreateFile(args.0[0].clone()),
            None => Action::StartRepl,
        },
    }
}

} // verus!
