//! The commands of the task list, and what each one does with the stored
//! text.

use crate::store::{not_found, remove_each, sorted_tasks, Tasks};
use crate::text::{descriptions_of, lines_of, same_text, terminated, text_of};
use vstd::prelude::*;
use vstd::string::*;

verus! {

/// What the user can ask for.
#[derive(Clone, Copy, Debug, PartialEq, Eq, Structural)]
pub enum Command {
    Add,
    Init,
    List,
    Sort,
    Remove,
}

/// The command that a word names, if it names one. Names are matched exactly.
pub open spec fn command_named(name: Seq<char>) -> Option<Command> {
    if name == "add"@ {
        Some(Command::Add)
    } else if name == "init"@ {
        Some(Command::Init)
    } else if name == "list"@ {
        Some(Command::List)
    } else if name == "sort"@ {
        Some(Command::Sort)
    } else if name == "remove"@ {
        Some(Command::Remove)
    } else {
        None
    }
}

/// Each of the five names stands for its own command.
pub proof fn lemma_names()
    ensures
        command_named("add"@) == Some(Command::Add),
        command_named("init"@) == Some(Command::Init),
        command_named("list"@) == Some(Command::List),
        command_named("sort"@) == Some(Command::Sort),
        command_named("remove"@) == Some(Command::Remove),
{
    reveal_strlit("add");
    reveal_strlit("init");
    reveal_strlit("list");
    reveal_strlit("sort");
    reveal_strlit("remove");
    assert("add"@.len() == 3 && "remove"@.len() == 6);
    assert("init"@.len() == 4 && "list"@.len() == 4 && "sort"@.len() == 4);
    assert("init"@[0] == 'i' && "list"@[0] == 'l' && "sort"@[0] == 's');
}

impl Command {
    /// The command's name: the word that asks for it.
    pub fn name(&self) -> (name: &'static str)
        ensures
            command_named(name@) == Some(*self),
    {
        proof {
            lemma_names();
        }
        match self {
            Command::Add => "add",
            Command::Init => "init",
            Command::List => "list",
            Command::Sort => "sort",
            Command::Remove => "remove",
        }
    }

    /// Reads a command's name.
    pub fn from_name(name: &str) -> (result: Option<Command>)
        ensures
            result == command_named(name@),
    {
        if same_text(name, "add") {
            Some(Command::Add)
        } else if same_text(name, "init") {
            Some(Command::Init)
        } else if same_text(name, "list") {
            Some(Command::List)
        } else if same_text(name, "sort") {
            Some(Command::Sort)
        } else if same_text(name, "remove") {
            Some(Command::Remove)
        } else {
            None
        }
    }
}

/// Why an invocation ends without having done its work.
#[derive(Clone, Copy, Debug, PartialEq, Eq, Structural)]
pub enum Failure {
    /// The storage is missing or cannot be read.
    StorageNotFound,
    /// The storage cannot be opened for writing.
    StorageWriteFailed,
    /// The storage to create is there already.
    StorageAlreadyExists,
    /// The first argument names no command.
    InvalidCommand,
}

/// The exit status of an invocation: 1 where it failed, 0 where it did not.
pub open spec fn status_of(failure: Option<Failure>) -> i32 {
    if failure is Some {
        1i32
    } else {
        0i32
    }
}

/// The exit status of an invocation: 1 where it failed, 0 where it did not.
/// A description that was not there to remove is no failure.
pub fn exit_code(failure: Option<Failure>) -> (code: i32)
    ensures
        code == status_of(failure),
{
    match failure {
        Some(_) => 1,
        None => 0,
    }
}

/// What the arguments of an invocation ask for.
#[derive(Debug, PartialEq, Eq)]
pub enum Request {
    /// No command was given: the usage is shown, and that is no failure.
    Help,
    /// The word given names no command.
    Unknown,
    /// A command and the words that follow it.
    Run(Command, Vec<String>),
}

impl Request {
    /// Why the request cannot be served, if it cannot: a word that names no
    /// command is a failure, a missing command is not.
    pub fn failure(&self) -> (failure: Option<Failure>)
        ensures
            failure == (if *self is Unknown {
                Some(Failure::InvalidCommand)
            } else {
                None
            }),
    {
        match self {
            Request::Unknown => Some(Failure::InvalidCommand),
            _ => None,
        }
    }
}

/// Reads the arguments of an invocation. The first is the program's own
/// name, the second the command, and the rest are the command's words.
pub fn parse_args(args: Vec<String>) -> (request: Request)
    ensures
        match request {
            Request::Help => args@.len() < 2,
            Request::Unknown => args@.len() >= 2 && command_named(args@[1]@) is None,
            Request::Run(command, words) => {
                &&& args@.len() >= 2
                &&& command_named(args@[1]@) == Some(command)
                &&& descriptions_of(words@) == descriptions_of(args@).skip(2)
            },
        },
{
    if args.len() < 2 {
        return Request::Help;
    }
    match Command::from_name(args[1].as_str()) {
        None => Request::Unknown,
        Some(command) => {
            let mut words: Vec<String> = Vec::new();
            let mut i: usize = 2;
            while i < args.len()
                invariant
                    2 <= i <= args.len(),
                    descriptions_of(words@) == descriptions_of(args@).subrange(2, i as int),
                decreases args.len() - i,
            {
                let ghost before = descriptions_of(words@);
                words.push(args[i].clone());
                assert(descriptions_of(words@) =~= before.push(args@[i as int]@));
                i += 1;
            }
            Request::Run(command, words)
        },
    }
}

/// Words joined by single spaces.
pub open spec fn spaced(words: Seq<Seq<char>>) -> Seq<char>
    decreases words.len(),
{
    if words.len() == 0 {
        Seq::empty()
    } else if words.len() == 1 {
        words[0]
    } else {
        spaced(words.drop_last()) + seq![' '] + words.last()
    }
}

/// The descriptions that a command's words stand for: all the words, joined
/// by single spaces, are one description; no words are no description.
pub open spec fn described(words: Seq<Seq<char>>) -> Seq<Seq<char>> {
    if words.len() == 0 {
        Seq::empty()
    } else {
        seq![spaced(words)]
    }
}

/// Makes the description out of a command's words.
pub fn description(words: &Vec<String>) -> (result: Vec<String>)
    ensures
        descriptions_of(result@) == described(descriptions_of(words@)),
{
    let ghost all = descriptions_of(words@);
    let mut result: Vec<String> = Vec::new();
    if words.len() == 0 {
        assert(descriptions_of(result@) =~= described(all));
        return result;
    }
    let mut joined = words[0].clone();
    let mut i: usize = 1;
    assert(all.take(1).len() == 1);
    while i < words.len()
        invariant
            1 <= i <= words.len(),
            all == descriptions_of(words@),
            joined@ == spaced(all.take(i as int)),
        decreases words.len() - i,
    {
        proof {
            reveal_strlit(" ");
            assert(all.take(i as int + 1).drop_last() =~= all.take(i as int));
        }
        let ghost before = joined@;
        joined.append(" ");
        joined.append(words[i].as_str());
        assert(joined@ =~= before + seq![' '] + all[i as int]);
        i += 1;
    }
    assert(all.take(i as int) =~= all);
    result.push(joined);
    assert(descriptions_of(result@) =~= described(all));
    result
}

/// What is to be done once a command has been worked out.
#[derive(Debug, PartialEq, Eq)]
pub enum Outcome {
    /// New storage is to be created with the text in it; it is a failure if
    /// some exists.
    Create(String),
    /// The text is to be shown; the storage stays as it is.
    Print(String),
    /// The text is to replace what is stored, and each of the descriptions
    /// that were not there to remove is to be reported as a warning.
    Store(String, Vec<String>),
    /// The failure is to be reported; the storage stays as it is.
    Fail(Failure),
}

/// An outcome, by the texts it holds.
pub ghost enum Effect {
    Create(Seq<char>),
    Print(Seq<char>),
    Store(Seq<char>, Seq<Seq<char>>),
    Fail(Failure),
}

impl View for Outcome {
    type V = Effect;

    open spec fn view(&self) -> Effect {
        match self {
            Outcome::Create(text) => Effect::Create(text@),
            Outcome::Print(text) => Effect::Print(text@),
            Outcome::Store(text, missing) => Effect::Store(text@, descriptions_of(missing@)),
            Outcome::Fail(failure) => Effect::Fail(*failure),
        }
    }
}

/// What a command does to the list that `stored` holds, given its words.
pub open spec fn edit_of(command: Command, words: Seq<Seq<char>>, stored: Seq<char>) -> Effect {
    let list = lines_of(stored);
    let given = described(words);
    match command {
        Command::Init => Effect::Create(Seq::empty()),
        Command::List => Effect::Print(terminated(list)),
        Command::Add => Effect::Store(text_of(list + given), Seq::empty()),
        Command::Remove => Effect::Store(
            text_of(remove_each(list, given)),
            not_found(list, given),
        ),
        Command::Sort => Effect::Store(text_of(sorted_tasks(list)), Seq::empty()),
    }
}

/// What a command does, given its words and the text that is stored, if any
/// could be read. `Init` looks at neither and asks for new, empty storage;
/// every other command fails where there is no text, and changes nothing
/// then.
pub open spec fn effect_of(
    command: Command,
    words: Seq<Seq<char>>,
    stored: Option<Seq<char>>,
) -> Effect {
    match (command, stored) {
        (Command::Init, _) => Effect::Create(Seq::empty()),
        (_, None) => Effect::Fail(Failure::StorageNotFound),
        (_, Some(text)) => edit_of(command, words, text),
    }
}

/// How an invocation ends, given what it set out to do and whether the
/// storage did it. Showing the list cannot be refused.
pub open spec fn conclusion_of(effect: Effect, done: bool) -> Option<Failure> {
    match effect {
        Effect::Fail(failure) => Some(failure),
        Effect::Print(_) => None,
        Effect::Create(_) => if done {
            None
        } else {
            Some(Failure::StorageAlreadyExists)
        },
        Effect::Store(_, _) => if done {
            None
        } else {
            Some(Failure::StorageWriteFailed)
        },
    }
}

/// Where nothing could be read, every command but `Init` fails with
/// `StorageNotFound` and exit status 1, whatever its words: nothing is shown,
/// and nothing is asked of the storage, neither to create nor to store.
pub proof fn lemma_missing_storage_fails(command: Command, words: Seq<Seq<char>>, done: bool)
    requires
        command != Command::Init,
    ensures
        effect_of(command, words, None) == Effect::Fail(Failure::StorageNotFound),
        conclusion_of(effect_of(command, words, None), done) == Some(Failure::StorageNotFound),
        status_of(conclusion_of(effect_of(command, words, None), done)) == 1,
{
}

/// `Init` asks for new, empty storage, whatever is stored and whatever its
/// words. It ends with exit status 0 where the storage was created, and with
/// `StorageAlreadyExists` and exit status 1 where it was refused; it never
/// asks to replace what is stored.
pub proof fn lemma_init_creates_or_fails(
    words: Seq<Seq<char>>,
    stored: Option<Seq<char>>,
    done: bool,
)
    ensures
        effect_of(Command::Init, words, stored) == Effect::Create(Seq::empty()),
        lines_of(Seq::empty()) == Seq::<Seq<char>>::empty(),
        status_of(conclusion_of(effect_of(Command::Init, words, stored), done)) == (if done {
            0i32
        } else {
            1i32
        }),
        !done ==> conclusion_of(effect_of(Command::Init, words, stored), done) == Some(
            Failure::StorageAlreadyExists,
        ),
{
}

/// The text that was read, as a sequence of characters.
pub open spec fn text_read(stored: Option<&str>) -> Option<Seq<char>> {
    match stored {
        Some(text) => Some(text@),
        None => None,
    }
}

impl Command {
    /// Whether the command works on the stored list. Only `Init` does not:
    /// it is run where nothing is stored yet.
    pub fn reads_storage(&self) -> (result: bool)
        ensures
            result == (*self != Command::Init),
    {
        match self {
            Command::Init => false,
            _ => true,
        }
    }

    /// Works out the command on the stored text; `stored` is `None` where the
    /// storage is missing or could not be read.
    pub fn run(&self, words: &Vec<String>, stored: Option<&str>) -> (outcome: Outcome)
        ensures
            outcome@ == effect_of(*self, descriptions_of(words@), text_read(stored)),
    {
        let text = match (self, stored) {
            (Command::Init, _) => return Outcome::Create(Tasks::create()),
            (_, None) => return Outcome::Fail(Failure::StorageNotFound),
            (_, Some(text)) => text,
        };
        let mut tasks = Tasks::read(text);
        let mut missing: Vec<String> = Vec::new();
        assert(descriptions_of(missing@) =~= Seq::<Seq<char>>::empty());
        match self {
            Command::Init => Outcome::Create(Tasks::create()),
            Command::List => Outcome::Print(tasks.list()),
            Command::Add => {
                tasks.add(description(words));
                Outcome::Store(tasks.write(), missing)
            },
            Command::Remove => {
                missing = tasks.remove(description(words));
                Outcome::Store(tasks.write(), missing)
            },
            Command::Sort => {
                tasks.sort();
                Outcome::Store(tasks.write(), missing)
            },
        }
    }
}

impl Outcome {
    /// How the invocation ends: `done` says whether the storage did what the
    /// outcome asks of it.
    pub fn conclude(&self, done: bool) -> (failure: Option<Failure>)
        ensures
            failure == conclusion_of(self@, done),
    {
        match self {
            Outcome::Fail(failure) => Some(*failure),
            Outcome::Print(_) => None,
            Outcome::Create(_) => if done {
                None
            } else {
                Some(Failure::StorageAlreadyExists)
            },
            Outcome::Store(_, _) => if done {
                None
            } else {
                Some(Failure::StorageWriteFailed)
            },
        }
    }
}

} // verus!
