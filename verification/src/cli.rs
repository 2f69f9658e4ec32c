//! The commands of the terminal client.
use crate::errors::{AtomicError, AtomicResult};
use crate::text::{cat3, to_chars};
use vstd::prelude::*;

verus! {

/// The formats in which a resource can be printed, as they are asked for.
#[derive(Clone, Copy, Debug, PartialEq, Eq, Structural)]
pub enum SerializeOptions {
    Pretty,
    Json,
    JsonAd,
    NTriples,
}

/// The formats in which a resource can be written.
#[derive(Clone, Copy, Debug, PartialEq, Eq, Structural)]
pub enum Format {
    Pretty,
    Json,
    JsonAd,
    NTriples,
}

/// The format that is asked for.
pub open spec fn format_of(options: SerializeOptions) -> Format {
    match options {
        SerializeOptions::Pretty => Format::Pretty,
        SerializeOptions::Json => Format::Json,
        SerializeOptions::JsonAd => Format::JsonAd,
        SerializeOptions::NTriples => Format::NTriples,
    }
}

impl SerializeOptions {
    /// The format that is asked for.
    pub fn into_format(self) -> (r: Format)
        ensures
            r == format_of(self),
    {
        match self {
            SerializeOptions::Pretty => Format::Pretty,
            SerializeOptions::Json => Format::Json,
            SerializeOptions::JsonAd => Format::JsonAd,
            SerializeOptions::NTriples => Format::NTriples,
        }
    }
}

/// What the client is asked to do.
pub enum Commands {
    /// Make a resource of a class.
    New { class: String },
    /// Print a resource.
    Get { subject: String, format: SerializeOptions },
    /// Set a property of a resource.
    SetProp { subject: String, property: String, value: String },
    /// Remove a property of a resource.
    Remove { subject: String, property: String },
    /// Change a property of a resource in a text editor.
    Edit { subject: String, property: String },
    /// Remove a resource.
    Destroy { subject: String },
    /// Search for a text.
    Search {
        query: String,
        parent: Option<String>,
        server: Option<String>,
        format: SerializeOptions,
    },
    /// Print all bookmarks.
    List,
    /// Check the store.
    Validate,
    /// Print the address of the agent.
    Agent,
}

/// What is done.
pub enum CliAction {
    New { class: String },
    Get { subject: String, format: Format },
    SetProp { subject: String, property: String, value: String },
    Remove { subject: String, property: String },
    Edit { subject: String, property: String },
    Destroy { subject: String },
    Search { query: String, parent: Option<String>, server: Option<String>, format: Format },
    List,
    Validate,
    Agent,
}

/// What is done about a command, where it can be done: an editor is there only in native builds.
pub open spec fn action_of(command: Commands, native: bool) -> Option<CliAction> {
    match command {
        Commands::Destroy { subject } => Some(CliAction::Destroy { subject }),
        Commands::Edit { subject, property } => if native {
            Some(CliAction::Edit { subject, property })
        } else {
            None
        },
        Commands::Get { subject, format } => Some(
            CliAction::Get { subject, format: format_of(format) },
        ),
        Commands::List => Some(CliAction::List),
        Commands::New { class } => Some(CliAction::New { class }),
        Commands::Remove { subject, property } => Some(CliAction::Remove { subject, property }),
        Commands::SetProp { subject, property, value } => Some(
            CliAction::SetProp { subject, property, value },
        ),
        Commands::Search { query, parent, server, format } => Some(
            CliAction::Search { query, parent, server, format: format_of(format) },
        ),
        Commands::Validate => Some(CliAction::Validate),
        Commands::Agent => Some(CliAction::Agent),
    }
}

/// Finds out what is done about a command.
pub fn exec_command(command: Commands, native: bool) -> (r: AtomicResult<CliAction>)
    ensures
        match action_of(command, native) {
            Some(action) => r == Ok::<CliAction, AtomicError>(action),
            None => r is Err && r->Err_0@ == crate::errors::other(
                "Feature not available. Compile with `native` feature."@,
            ),
        },
{
    match command {
        Commands::Destroy { subject } => Ok(CliAction::Destroy { subject }),
        Commands::Edit { subject, property } => if native {
            Ok(CliAction::Edit { subject, property })
        } else {
            Err(
                AtomicError::other_error(
                    "Feature not available. Compile with `native` feature.".to_owned(),
                ),
            )
        },
        Commands::Get { subject, format } => Ok(
            CliAction::Get { subject, format: format.into_format() },
        ),
        Commands::List => Ok(CliAction::List),
        Commands::New { class } => Ok(CliAction::New { class }),
        Commands::Remove { subject, property } => Ok(CliAction::Remove { subject, property }),
        Commands::SetProp { subject, property, value } => Ok(
            CliAction::SetProp { subject, property, value },
        ),
        Commands::Search { query, parent, server, format } => Ok(
            CliAction::Search { query, parent, server, format: format.into_format() },
        ),
        Commands::Validate => Ok(CliAction::Validate),
        Commands::Agent => Ok(CliAction::Agent),
    }
}

/// What is needed to write to a server.
pub struct Config {
    pub agent_secret: String,
    pub server_url: Option<String>,
}

/// Where a configuration comes from.
pub enum ConfigSource {
    /// From the file, which is complete.
    Found,
    /// From the file, after the address of the server has been asked for and written to it.
    AskServer,
    /// From the user, who is asked for everything.
    AskAll,
}

/// Where a configuration comes from. `found` is what the file says, where it can be read.
pub fn set_agent_config(found: &Option<Config>) -> (r: ConfigSource)
    ensures
        r == (match *found {
            Some(config) => if config.server_url is Some {
                ConfigSource::Found
            } else {
                ConfigSource::AskServer
            },
            None => ConfigSource::AskAll,
        }),
{
    match found {
        Some(config) => if config.server_url.is_some() {
            ConfigSource::Found
        } else {
            ConfigSource::AskServer
        },
        None => ConfigSource::AskAll,
    }
}

/// A configuration with the address of a server. One that has an address keeps it.
pub fn prompt_for_missing_config_values(config: Config, server: String) -> (r: Config)
    ensures
        r.agent_secret == config.agent_secret,
        r.server_url == (match config.server_url {
            Some(url) => Some(url),
            None => Some(server),
        }),
{
    match config.server_url {
        Some(url) => Config { agent_secret: config.agent_secret, server_url: Some(url) },
        None => Config { agent_secret: config.agent_secret, server_url: Some(server) },
    }
}

/// What the user answered. What was not asked for is left empty.
pub struct ConfigAnswers {
    pub server: String,
    pub agent_secret: String,
}

/// The configuration to be used, and whether it is saved first.
pub open spec fn config_of(found: Option<Config>, answers: ConfigAnswers) -> (Config, bool) {
    match found {
        Some(config) => match config.server_url {
            Some(_) => (config, false),
            None => (
                Config { agent_secret: config.agent_secret, server_url: Some(answers.server) },
                true,
            ),
        },
        None => (
            Config { agent_secret: answers.agent_secret, server_url: Some(answers.server) },
            true,
        ),
    }
}

/// The configuration to be used, and whether it is saved first: the one from the file, with the
/// address of a server where it had none, or one that is all from the user.
pub fn finish_config(found: Option<Config>, answers: ConfigAnswers) -> (r: (Config, bool))
    ensures
        r == config_of(found, answers),
{
    match set_agent_config(&found) {
        ConfigSource::AskAll => (
            Config { agent_secret: answers.agent_secret, server_url: Some(answers.server) },
            true,
        ),
        source => {
            let save = matches!(source, ConfigSource::AskServer);
            let config = found.unwrap();
            (prompt_for_missing_config_values(config, answers.server), save)
        },
    }
}

/// A text with as many spaces at its end as it takes to have `width` characters.
pub open spec fn padded(s: Seq<char>, width: nat) -> Seq<char> {
    if s.len() >= width {
        s
    } else {
        s + Seq::new((width - s.len()) as nat, |i: int| ' ')
    }
}

/// Fills a text up with spaces.
pub fn pad(s: &str, width: usize) -> (r: String)
    ensures
        r@ == padded(s@, width as nat),
{
    let chars = to_chars(s);
    let mut n: usize = chars.len();
    let mut r = s.to_owned();
    assert(n < width ==> r@ =~= s@ + Seq::new(0, |i: int| ' '));
    while n < width
        invariant
            s@.len() <= n,
            s@.len() < width ==> n <= width && r@ == s@ + Seq::new(
                (n - s@.len()) as nat,
                |i: int| ' ',
            ),
            s@.len() >= width ==> r@ == s@,
        decreases width - n,
    {
        r.push(' ');
        n += 1;
        assert(s@.len() < width ==> r@ =~= s@ + Seq::new((n - s@.len()) as nat, |i: int| ' '));
    }
    r
}

/// A line of the list of bookmarks. `shown` is the short name as it is shown, filled up to its
/// column.
pub fn list_line(shown: &str, url: &str) -> (r: String)
    ensures
        r@ == shown@ + padded(url@, 10) + " \n"@,
{
    let column = pad(url, 10);
    cat3(shown, column.as_str(), " \n")
}

/// In native builds every command is carried out; without an editor all but one are.
pub proof fn commands_are_carried_out(command: Commands, native: bool)
    ensures
        action_of(command, native) is None <==> !native && command is Edit,
        action_of(command, native) is Some ==> action_of(command, native) == action_of(
            command,
            true,
        ),
{
}

/// Different commands are different actions, and different formats are different formats.
pub proof fn commands_are_told_apart(a: Commands, b: Commands, x: SerializeOptions, y: SerializeOptions)
    ensures
        action_of(a, true) == action_of(b, true) ==> a == b,
        format_of(x) == format_of(y) ==> x == y,
{
}

/// What is done is what was asked for, to the resource that was named.
pub proof fn commands_are_done_to_what_they_name(command: Commands, native: bool)
    ensures
        match action_of(command, native) {
            Some(CliAction::New { class }) => command == Commands::New { class },
            Some(CliAction::Get { subject, format }) => command matches Commands::Get {
                subject: named,
                format: asked,
            } && named == subject && (format is Pretty <==> asked is Pretty) && (format is Json
                <==> asked is Json) && (format is JsonAd <==> asked is JsonAd),
            Some(CliAction::SetProp { subject, property, value }) => command == (
            Commands::SetProp { subject, property, value }),
            Some(CliAction::Remove { subject, property }) => command == (
            Commands::Remove { subject, property }),
            Some(CliAction::Edit { subject, property }) => command == (
            Commands::Edit { subject, property }),
            Some(CliAction::Destroy { subject }) => command == Commands::Destroy { subject },
            Some(CliAction::Search { query, parent, server, format }) => command matches Commands::Search {
                query: q,
                parent: p,
                server: s,
                format: asked,
            } && q == query && p == parent && s == server && (format is Pretty <==> asked is Pretty)
                && (format is Json <==> asked is Json) && (format is JsonAd <==> asked is JsonAd),
            Some(CliAction::List) => command is List,
            Some(CliAction::Validate) => command is Validate,
            Some(CliAction::Agent) => command is Agent,
            None => command is Edit,
        },
{
}

/// A text that is filled up starts with the text, has nothing but spaces after it, and is as wide as
/// the column, or wider where the text is.
pub proof fn only_spaces_are_added(s: Seq<char>, width: nat)
    ensures
        s.is_prefix_of(padded(s, width)),
        padded(s, width).len() >= width,
        padded(s, width).len() == s.len() || padded(s, width).len() == width,
        forall|i: int| s.len() <= i < padded(s, width).len() ==> #[trigger] padded(s, width)[i] == ' ',
{
    assert(padded(s, width).subrange(0, s.len() as int) =~= s);
}

/// A configuration that is used has the address of a server. What the file says is kept, and the user
/// says the rest. It is saved where it is not what the file says, and only there.
pub proof fn configurations_are_completed(found: Option<Config>, answers: ConfigAnswers)
    ensures
        ({
            let (config, saved) = config_of(found, answers);
            &&& config.server_url is Some
            &&& !saved <==> found == Some(config)
            &&& found matches Some(old) ==> config.agent_secret == old.agent_secret && (
            old.server_url is Some ==> config.server_url == old.server_url)
            &&& found is None ==> config.agent_secret == answers.agent_secret
            &&& found is None || found->0.server_url is None ==> config.server_url == Some(
                answers.server,
            )
        }),
{
}

} // verus!
