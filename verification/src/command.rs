//! The operations that the command line selects.

use vstd::prelude::*;

use crate::failure;
use crate::failure::Failure;
use crate::order;
use crate::text;

verus! {

/// The configuration that is read where none is named.
pub const DEFAULT_CONFIG_PATH: &'static str = "echoscribe.toml";

/// One argument, as the operating system handed it over.
#[derive(Debug)]
pub struct Argument<P> {
    /// Its text, where it is one.
    pub text: Option<String>,
    /// Its text, with whatever is none replaced.
    pub lossy: String,
    /// The quoted form in which it is shown.
    pub quoted: String,
    /// The path it names.
    pub path: P,
}

/// Which configuration an operation reads.
#[derive(Debug)]
pub enum ConfigPath<P> {
    /// The one at [`DEFAULT_CONFIG_PATH`].
    Standard,
    Chosen(P),
}

/// Parsed top-level operation. Only normal and recording-only modes connect to
/// Discord.
#[derive(Debug)]
#[allow(inconsistent_fields)]
pub enum Command<P> {
    Normal { config_path: ConfigPath<P> },
    RecordOnly { config_path: ConfigPath<P> },
    Inspect { session_directory: P },
    Recover { session_directory: P, user_ids: Vec<u64> },
    RecoverWav { session_directory: P },
    Continue { session_directory: P, config_path: Option<P> },
    BuildWorkItems { session_directory: P, config_path: P },
    Transcribe { session_directory: P, config_path: P },
    RebuildTranscript { session_directory: P },
    Export { session_directory: P },
    Verify { session_directory: P },
}

#[allow(inconsistent_fields)]
pub enum CommandView<P> {
    Normal { config_path: ConfigPath<P> },
    RecordOnly { config_path: ConfigPath<P> },
    Inspect { session_directory: P },
    Recover { session_directory: P, user_ids: Seq<u64> },
    RecoverWav { session_directory: P },
    Continue { session_directory: P, config_path: Option<P> },
    BuildWorkItems { session_directory: P, config_path: P },
    Transcribe { session_directory: P, config_path: P },
    RebuildTranscript { session_directory: P },
    Export { session_directory: P },
    Verify { session_directory: P },
}

impl<P> DeepView for Command<P> {
    type V = CommandView<P>;

    open spec fn deep_view(&self) -> CommandView<P> {
        match *self {
            Command::Normal { config_path } => CommandView::Normal { config_path },
            Command::RecordOnly { config_path } => CommandView::RecordOnly { config_path },
            Command::Inspect { session_directory } => CommandView::Inspect { session_directory },
            Command::Recover { session_directory, user_ids } => CommandView::Recover {
                session_directory,
                user_ids: user_ids@,
            },
            Command::RecoverWav { session_directory } => CommandView::RecoverWav {
                session_directory,
            },
            Command::Continue { session_directory, config_path } => CommandView::Continue {
                session_directory,
                config_path,
            },
            Command::BuildWorkItems { session_directory, config_path } => {
                CommandView::BuildWorkItems { session_directory, config_path }
            },
            Command::Transcribe { session_directory, config_path } => CommandView::Transcribe {
                session_directory,
                config_path,
            },
            Command::RebuildTranscript { session_directory } => CommandView::RebuildTranscript {
                session_directory,
            },
            Command::Export { session_directory } => CommandView::Export { session_directory },
            Command::Verify { session_directory } => CommandView::Verify { session_directory },
        }
    }
}

/// An operation on a recorded session.
#[derive(Clone, Copy, Debug, PartialEq, Eq, Structural)]
pub enum Operation {
    Inspect,
    Recover,
    RecoverWav,
    Continue,
    BuildWorkItems,
    Transcribe,
    RebuildTranscript,
    Export,
    Verify,
}

impl Operation {
    pub open spec fn name(self) -> Seq<char> {
        match self {
            Operation::Inspect => "inspect"@,
            Operation::Recover => "recover"@,
            Operation::RecoverWav => "recover-wav"@,
            Operation::Continue => "continue"@,
            Operation::BuildWorkItems => "build-work-items"@,
            Operation::Transcribe => "transcribe"@,
            Operation::RebuildTranscript => "rebuild-transcript"@,
            Operation::Export => "export"@,
            Operation::Verify => "verify"@,
        }
    }

    pub fn as_str(self) -> (name: &'static str)
        ensures
            name@ == self.name(),
    {
        match self {
            Operation::Inspect => "inspect",
            Operation::Recover => "recover",
            Operation::RecoverWav => "recover-wav",
            Operation::Continue => "continue",
            Operation::BuildWorkItems => "build-work-items",
            Operation::Transcribe => "transcribe",
            Operation::RebuildTranscript => "rebuild-transcript",
            Operation::Export => "export",
            Operation::Verify => "verify",
        }
    }

    /// The operation of a name.
    pub open spec fn spec_named(name: Seq<char>) -> Option<Operation> {
        if name == "inspect"@ {
            Some(Operation::Inspect)
        } else if name == "recover"@ {
            Some(Operation::Recover)
        } else if name == "recover-wav"@ {
            Some(Operation::RecoverWav)
        } else if name == "continue"@ {
            Some(Operation::Continue)
        } else if name == "build-work-items"@ {
            Some(Operation::BuildWorkItems)
        } else if name == "transcribe"@ {
            Some(Operation::Transcribe)
        } else if name == "rebuild-transcript"@ {
            Some(Operation::RebuildTranscript)
        } else if name == "export"@ {
            Some(Operation::Export)
        } else if name == "verify"@ {
            Some(Operation::Verify)
        } else {
            None
        }
    }

    pub fn named(name: &str) -> (operation: Option<Operation>)
        ensures
            operation == Operation::spec_named(name@),
    {
        if text::same_text(name, "inspect") {
            Some(Operation::Inspect)
        } else if text::same_text(name, "recover") {
            Some(Operation::Recover)
        } else if text::same_text(name, "recover-wav") {
            Some(Operation::RecoverWav)
        } else if text::same_text(name, "continue") {
            Some(Operation::Continue)
        } else if text::same_text(name, "build-work-items") {
            Some(Operation::BuildWorkItems)
        } else if text::same_text(name, "transcribe") {
            Some(Operation::Transcribe)
        } else if text::same_text(name, "rebuild-transcript") {
            Some(Operation::RebuildTranscript)
        } else if text::same_text(name, "export") {
            Some(Operation::Export)
        } else if text::same_text(name, "verify") {
            Some(Operation::Verify)
        } else {
            None
        }
    }
}

/// Every operation is selected by its own name.
pub proof fn operations_answer_to_their_names(operation: Operation)
    ensures
        Operation::spec_named(operation.name()) == Some(operation),
{
    reveal_strlit("inspect");
    reveal_strlit("recover");
    reveal_strlit("recover-wav");
    reveal_strlit("continue");
    reveal_strlit("build-work-items");
    reveal_strlit("transcribe");
    reveal_strlit("rebuild-transcript");
    reveal_strlit("export");
    reveal_strlit("verify");
    assert("inspect"@[0] == 'i');
    assert("recover"@[0] == 'r' && "recover"@.len() == 7);
    assert("recover-wav"@[0] == 'r' && "recover-wav"@.len() == 11);
    assert("continue"@[0] == 'c');
    assert("build-work-items"@[0] == 'b');
    assert("transcribe"@[0] == 't');
    assert("rebuild-transcript"@[0] == 'r' && "rebuild-transcript"@.len() == 18);
    assert("export"@[0] == 'e');
    assert("verify"@[0] == 'v');
}

pub open spec fn unexpected<P>(argument: Argument<P>) -> Seq<char> {
    "unexpected argument "@ + argument.quoted@
}

/// Refuse the first of the arguments that are left, where there is one.
pub fn require_no_extra_args<P>(args: &Vec<Argument<P>>) -> (result: Result<(), Failure>)
    ensures
        failure::outcome(result) == (if args@.len() > 0 {
            Err::<(), Seq<char>>(unexpected(args@[0]))
        } else {
            Ok(())
        }),
{
    if args.len() > 0 {
        Err(Failure::new("unexpected argument ".to_owned().concat(args[0].quoted.as_str())))
    } else {
        Ok(())
    }
}

/// The user an argument of `recover` names.
pub open spec fn recovered_user(lossy: Seq<char>) -> Result<u64, Seq<char>> {
    match text::parsed_u64(lossy) {
        Some(user_id) if user_id != 0 => Ok(user_id),
        _ => Err(
            "recover user ID "@ + text::debug_form(lossy)
                + " must be a non-zero unsigned Discord ID"@,
        ),
    }
}

fn recovered_user_id(lossy: &str) -> (user_id: Result<u64, Failure>)
    ensures
        failure::outcome(user_id) == recovered_user(lossy@),
{
    match text::parse_u64(lossy) {
        Some(user_id) if user_id != 0 => Ok(user_id),
        _ => Err(
            Failure::new(
                "recover user ID ".to_owned().concat(text::debug_text(lossy).as_str()).concat(
                    " must be a non-zero unsigned Discord ID",
                ),
            ),
        ),
    }
}

/// The users that the arguments of `recover` name, as they are named, or the
/// first argument that names none.
pub open spec fn recovered_users<P>(args: Seq<Argument<P>>) -> Result<Seq<u64>, Seq<char>>
    decreases args.len(),
{
    if args.len() == 0 {
        Ok(Seq::empty())
    } else {
        match recovered_users(args.drop_last()) {
            Err(fault) => Err(fault),
            Ok(users) => match recovered_user(args.last().lossy@) {
                Err(fault) => Err(fault),
                Ok(user) => Ok(users.push(user)),
            },
        }
    }
}

proof fn lemma_recovered_users_stop<P>(args: Seq<Argument<P>>, count: int)
    requires
        0 <= count <= args.len(),
        recovered_users(args.take(count)) is Err,
    ensures
        recovered_users(args) == recovered_users(args.take(count)),
    decreases args.len(),
{
    if count == args.len() {
        assert(args.take(count) =~= args);
    } else {
        assert(args.drop_last().take(count) =~= args.take(count));
        lemma_recovered_users_stop(args.drop_last(), count);
    }
}

fn recovered_user_ids<P>(args: &Vec<Argument<P>>) -> (user_ids: Result<Vec<u64>, Failure>)
    ensures
        failure::listing(user_ids) == recovered_users(args@),
{
    let mut user_ids: Vec<u64> = Vec::new();
    let mut index: usize = 0;
    assert(args@.take(0) =~= Seq::<Argument<P>>::empty());
    while index < args.len()
        invariant
            index <= args.len(),
            recovered_users(args@.take(index as int)) == Ok::<Seq<u64>, Seq<char>>(user_ids@),
        decreases args.len() - index,
    {
        let user_id = recovered_user_id(args[index].lossy.as_str());
        proof {
            let longer = args@.take(index + 1);
            assert(longer.drop_last() =~= args@.take(index as int));
            assert(longer.last() == args@[index as int]);
            if recovered_users(longer) is Err {
                lemma_recovered_users_stop(args@, index + 1);
            }
        }
        match user_id {
            Err(fault) => {
                return Err(fault);
            },
            Ok(user_id) => {
                user_ids.push(user_id);
            },
        }
        index = index + 1;
    }
    assert(args@.take(args@.len() as int) =~= args@);
    Ok(user_ids)
}

/// What the arguments behind an operation and its session select.
pub open spec fn session_command<P>(operation: Operation, session_directory: P, rest: Seq<
    Argument<P>,
>) -> Result<CommandView<P>, Seq<char>> {
    match operation {
        Operation::Recover => match recovered_users(rest) {
            Err(fault) => Err(fault),
            Ok(users) => Ok(
                CommandView::Recover {
                    session_directory,
                    user_ids: order::ascending(users.to_set()),
                },
            ),
        },
        Operation::Continue => if rest.len() > 1 {
            Err(unexpected(rest[1]))
        } else {
            Ok(
                CommandView::Continue {
                    session_directory,
                    config_path: if rest.len() == 1 {
                        Some(rest[0].path)
                    } else {
                        None
                    },
                },
            )
        },
        Operation::BuildWorkItems | Operation::Transcribe => if rest.len() == 0 {
            Err(operation.name() + " requires a config path"@)
        } else if rest.len() > 1 {
            Err(unexpected(rest[1]))
        } else if operation == Operation::BuildWorkItems {
            Ok(CommandView::BuildWorkItems { session_directory, config_path: rest[0].path })
        } else {
            Ok(CommandView::Transcribe { session_directory, config_path: rest[0].path })
        },
        _ => if rest.len() > 0 {
            Err(unexpected(rest[0]))
        } else {
            Ok(
                match operation {
                    Operation::Inspect => CommandView::Inspect { session_directory },
                    Operation::RecoverWav => CommandView::RecoverWav { session_directory },
                    Operation::RebuildTranscript => CommandView::RebuildTranscript {
                        session_directory,
                    },
                    Operation::Export => CommandView::Export { session_directory },
                    _ => CommandView::Verify { session_directory },
                },
            )
        },
    }
}

/// What a command line selects, or the first thing wrong with it.
pub open spec fn command_of<P>(args: Seq<Argument<P>>) -> Result<CommandView<P>, Seq<char>> {
    if args.len() == 0 {
        Ok(CommandView::Normal { config_path: ConfigPath::Standard })
    } else {
        let name = args[0].text.deep_view();
        if name == Some("record"@) {
            if args.len() > 2 {
                Err(unexpected(args[2]))
            } else if args.len() == 2 {
                Ok(CommandView::RecordOnly { config_path: ConfigPath::Chosen(args[1].path) })
            } else {
                Ok(CommandView::RecordOnly { config_path: ConfigPath::Standard })
            }
        } else if name is Some && Operation::spec_named(name->0) is Some {
            if args.len() == 1 {
                Err(name->0 + " requires a session directory"@)
            } else {
                session_command(
                    Operation::spec_named(name->0)->0,
                    args[1].path,
                    args.skip(2),
                )
            }
        } else if args.len() > 1 {
            Err(unexpected(args[1]))
        } else {
            Ok(CommandView::Normal { config_path: ConfigPath::Chosen(args[0].path) })
        }
    }
}

/// The next argument, where one is left.
fn next_argument<P>(args: &mut Vec<Argument<P>>) -> (next: Option<Argument<P>>)
    ensures
        match next {
            None => old(args)@.len() == 0 && final(args)@ == old(args)@,
            Some(argument) => old(args)@.len() > 0 && argument == old(args)@[0] && final(args)@
                == old(args)@.skip(1),
        },
{
    if args.len() == 0 {
        None
    } else {
        let next = args.remove(0);
        assert(args@ =~= old(args)@.skip(1));
        Some(next)
    }
}

fn parse_session_command<P>(
    operation: Operation,
    session_directory: P,
    rest: Vec<Argument<P>>,
) -> (command: Result<Command<P>, Failure>)
    ensures
        failure::outcome(command) == session_command(operation, session_directory, rest@),
{
    let mut rest = rest;
    let ghost given = rest@;
    match operation {
        Operation::Recover => {
            match recovered_user_ids(&rest) {
                Err(fault) => Err(fault),
                Ok(user_ids) => {
                    let user_ids = order::distinct_ascending(&user_ids);
                    Ok(Command::Recover { session_directory, user_ids })
                },
            }
        },
        Operation::Continue => {
            let config_path = match next_argument(&mut rest) {
                Some(argument) => Some(argument.path),
                None => None,
            };
            match require_no_extra_args(&rest) {
                Err(fault) => Err(fault),
                Ok(_) => Ok(Command::Continue { session_directory, config_path }),
            }
        },
        Operation::BuildWorkItems | Operation::Transcribe => {
            let config_path = match next_argument(&mut rest) {
                Some(argument) => argument.path,
                None => {
                    return Err(
                        Failure::new(
                            operation.as_str().to_owned().concat(" requires a config path"),
                        ),
                    );
                },
            };
            match require_no_extra_args(&rest) {
                Err(fault) => Err(fault),
                Ok(_) => if operation == Operation::BuildWorkItems {
                    Ok(Command::BuildWorkItems { session_directory, config_path })
                } else {
                    Ok(Command::Transcribe { session_directory, config_path })
                },
            }
        },
        _ => {
            match require_no_extra_args(&rest) {
                Err(fault) => Err(fault),
                Ok(_) => Ok(
                    match operation {
                        Operation::Inspect => Command::Inspect { session_directory },
                        Operation::RecoverWav => Command::RecoverWav { session_directory },
                        Operation::RebuildTranscript => Command::RebuildTranscript {
                            session_directory,
                        },
                        Operation::Export => Command::Export { session_directory },
                        _ => Command::Verify { session_directory },
                    },
                ),
            }
        },
    }
}

/// Parse the arguments behind the program's name.
pub fn parse_command_args<P>(args: Vec<Argument<P>>) -> (command: Result<Command<P>, Failure>)
    ensures
        failure::outcome(command) == command_of(args@),
{
    let mut args = args;
    let ghost given = args@;
    let first = match next_argument(&mut args) {
        None => {
            return Ok(Command::Normal { config_path: ConfigPath::Standard });
        },
        Some(first) => first,
    };
    if let Some(name) = &first.text {
        if text::same_text(name.as_str(), "record") {
            let config_path = match next_argument(&mut args) {
                None => ConfigPath::Standard,
                Some(argument) => ConfigPath::Chosen(argument.path),
            };
            return match require_no_extra_args(&args) {
                Err(fault) => Err(fault),
                Ok(_) => Ok(Command::RecordOnly { config_path }),
            };
        }
        if let Some(operation) = Operation::named(name.as_str()) {
            return match next_argument(&mut args) {
                None => Err(
                    Failure::new(name.clone().concat(" requires a session directory")),
                ),
                Some(session) => {
                    assert(args@ =~= given.skip(2));
                    parse_session_command(operation, session.path, args)
                },
            };
        }
    }
    match require_no_extra_args(&args) {
        Err(fault) => Err(fault),
        Ok(_) => Ok(Command::Normal { config_path: ConfigPath::Chosen(first.path) }),
    }
}

/// The users to recover come out once each, in numeric order, however they were
/// named, and none of them is zero.
pub proof fn recovered_users_are_normalised<P>(args: Seq<Argument<P>>)
    requires
        recovered_users(args) is Ok,
    ensures
        ({
            let named = recovered_users(args)->Ok_0;
            let listed = order::ascending(named.to_set());
            &&& order::strictly_increasing(listed)
            &&& listed.to_set() == named.to_set()
            &&& forall|i: int| 0 <= i < listed.len() ==> #[trigger] listed[i] != 0
        }),
{
    let named = recovered_users(args)->Ok_0;
    let listed = order::ascending(named.to_set());
    vstd::seq_lib::seq_to_set_is_finite(named);
    order::ascending_lists_the_set(named.to_set());
    lemma_recovered_users_are_named(args);
    assert forall|i: int| 0 <= i < listed.len() implies #[trigger] listed[i] != 0 by {
        assert(listed.to_set().contains(listed[i]));
        assert(named.to_set().contains(listed[i]));
    }
}

proof fn lemma_recovered_users_are_named<P>(args: Seq<Argument<P>>)
    requires
        recovered_users(args) is Ok,
    ensures
        forall|i: int|
            0 <= i < recovered_users(args)->Ok_0.len() ==> #[trigger] recovered_users(
                args,
            )->Ok_0[i] != 0,
    decreases args.len(),
{
    if args.len() > 0 {
        lemma_recovered_users_are_named(args.drop_last());
    }
}

} // verus!
