//! The daemon's settings.

use vstd::prelude::*;

use crate::bus::AuthorId;
use crate::failure::Failure;
use crate::loom::{pairs, LoomCli};
use crate::paths::{join_path, joined_path};
use crate::text::{decimal_of, law_decimal_reads_back, number_of, number_refusal, parse_u64};

verus! {

/// The daemon's settings.
#[derive(Debug)]
pub struct Config {
    pub discord_token: String,
    pub owner_id: AuthorId,
    pub loom_command: String,
    pub manifest: String,
    pub cron_manifest: String,
    pub system_data: String,
}

/// What the environment says, each where it is set.
#[derive(Debug)]
pub struct Environment {
    /// `DISCORD_BOT_TOKEN`, or why it cannot be had.
    pub discord_token: Result<String, String>,
    /// `OPERATOR_DISCORD_ID`, or why it cannot be had.
    pub owner_id: Result<String, String>,
    /// `LOOM_COMMAND`
    pub loom_command: Option<String>,
    /// `MANIFEST`
    pub manifest: Option<String>,
    /// `CRON_MANIFEST`
    pub cron_manifest: Option<String>,
    /// `GLASS_SYSTEM_DATA`
    pub system_data: Option<String>,
    /// The platform's directory for application data.
    pub data_dir: Option<String>,
}

/// The text of a setting, or its default where it is not set.
pub open spec fn or_default(value: Option<String>, default: Seq<char>) -> Seq<char> {
    match value {
        Some(s) => s@,
        None => default,
    }
}

/// The number of the owner's id, where it is one.
pub open spec fn owner_number(text: Seq<char>) -> Option<nat> {
    match number_of(text) {
        Some(n) if n <= u64::MAX => Some(n),
        _ => None,
    }
}

/// Why the settings cannot be made of an environment, if so.
pub open spec fn config_failure(env: Environment) -> Option<Seq<Seq<char>>> {
    match (env.discord_token, env.owner_id) {
        (Err(cause), _) => Some(seq!["DISCORD_BOT_TOKEN not set"@, cause@]),
        (Ok(_), Err(cause)) => Some(seq!["OPERATOR_DISCORD_ID not set"@, cause@]),
        (Ok(_), Ok(owner)) => if owner_number(owner@) is None {
            Some(
                seq![
                    "OPERATOR_DISCORD_ID must be a numeric Discord user ID"@,
                    number_refusal(owner@),
                ],
            )
        } else if env.system_data is None && env.data_dir is None {
            Some(seq!["could not resolve platform data dir for default GLASS_SYSTEM_DATA"@])
        } else {
            None
        },
    }
}

/// A failure with its cause.
fn caused(message: &str, cause: String) -> (e: Failure)
    ensures
        e@ == seq![message@, cause@],
{
    let e: Failure = Failure::new(cause).context(message.to_owned());
    assert(e@ =~= seq![message@, cause@]);
    e
}

fn setting(value: Option<String>, default: &str) -> (s: String)
    ensures
        s@ == or_default(value, default@),
{
    match value {
        Some(s) => s,
        None => default.to_owned(),
    }
}

impl Config {
    /// The settings that an environment makes.
    pub fn from_env(env: Environment) -> (r: Result<Config, Failure>)
        ensures
            match r {
                Ok(c) => {
                    &&& config_failure(env) is None
                    &&& c.discord_token@ == env.discord_token->Ok_0@
                    &&& owner_number(env.owner_id->Ok_0@) == Some(c.owner_id.0 as nat)
                    &&& c.loom_command@ == or_default(env.loom_command, "loom"@)
                    &&& c.manifest@ == or_default(env.manifest, "./manifests/glass.toml"@)
                    &&& c.cron_manifest@ == or_default(env.cron_manifest, "./manifests/cron.toml"@)
                    &&& c.system_data@ == match env.system_data {
                        Some(s) => s@,
                        None => joined_path(env.data_dir->0@, "Glass"@),
                    }
                },
                Err(e) => config_failure(env) == Some(e@),
            },
    {
        let discord_token: String = match env.discord_token {
            Ok(t) => t,
            Err(cause) => return Err(caused("DISCORD_BOT_TOKEN not set", cause)),
        };
        let owner_id: AuthorId = match env.owner_id {
            Ok(text) => match parse_u64(text.as_str()) {
                Ok(n) => AuthorId(n),
                Err(cause) => return Err(
                    caused("OPERATOR_DISCORD_ID must be a numeric Discord user ID", cause),
                ),
            },
            Err(cause) => return Err(caused("OPERATOR_DISCORD_ID not set", cause)),
        };
        let system_data: String = match env.system_data {
            Some(s) => s,
            None => match env.data_dir {
                Some(dir) => join_path(dir.as_str(), "Glass"),
                None => return Err(
                    Failure::new(
                        "could not resolve platform data dir for default GLASS_SYSTEM_DATA".to_owned(),
                    ),
                ),
            },
        };
        Ok(
            Config {
                discord_token,
                owner_id,
                loom_command: setting(env.loom_command, "loom"),
                manifest: setting(env.manifest, "./manifests/glass.toml"),
                cron_manifest: setting(env.cron_manifest, "./manifests/cron.toml"),
                system_data,
            },
        )
    }

    /// The record of messages.
    pub fn dm_log_path(&self) -> (p: String)
        ensures
            p@ == joined_path(self.system_data@, "dm-log.jsonl"@),
    {
        join_path(self.system_data.as_str(), "dm-log.jsonl")
    }

    /// The socket that the agent's tools talk to.
    pub fn socket_path(&self) -> (p: String)
        ensures
            p@ == joined_path(self.system_data@, "orchestrator.sock"@),
    {
        join_path(self.system_data.as_str(), "orchestrator.sock")
    }

    /// The scheduled prompts.
    pub fn cron_path(&self) -> (p: String)
        ensures
            p@ == joined_path(self.system_data@, "cron.jsonl"@),
    {
        join_path(self.system_data.as_str(), "cron.jsonl")
    }

    /// The records of runs.
    pub fn invocations_dir(&self) -> (p: String)
        ensures
            p@ == joined_path(self.system_data@, "invocations"@),
    {
        join_path(self.system_data.as_str(), "invocations")
    }

    /// The failure of a daemon whose manifest does not exist.
    pub fn manifest_failure(&self) -> (e: Failure)
        ensures
            e@ == seq![
                "manifest not found at "@ + self.manifest@
                    + " (set MANIFEST or run from the repo root)"@,
            ],
    {
        let mut message: String = "manifest not found at ".to_owned();
        message.append(self.manifest.as_str());
        message.append(" (set MANIFEST or run from the repo root)");
        Failure::new(message)
    }

    /// The agent runner, which is told where the socket and the record of messages are.
    pub fn runner(&self) -> (r: LoomCli)
        ensures
            r.command@ == self.loom_command@,
            pairs(r.extra_env@) == seq![
                (
                    "GLASS_ORCHESTRATOR_SOCK"@,
                    joined_path(self.system_data@, "orchestrator.sock"@),
                ),
                ("GLASS_DM_LOG"@, joined_path(self.system_data@, "dm-log.jsonl"@)),
            ],
    {
        let r: LoomCli = LoomCli::new(self.loom_command.clone()).with_env(
            "GLASS_ORCHESTRATOR_SOCK".to_owned(),
            self.socket_path(),
        ).with_env("GLASS_DM_LOG".to_owned(), self.dm_log_path());
        assert(pairs(r.extra_env@) =~= seq![
            ("GLASS_ORCHESTRATOR_SOCK"@, joined_path(self.system_data@, "orchestrator.sock"@)),
            ("GLASS_DM_LOG"@, joined_path(self.system_data@, "dm-log.jsonl"@)),
        ]);
        r
    }
}

/// The settings can be made exactly where the token and the owner's id are there, the id is
/// a number that fits, and there is a directory for data; any other setting may be missing.
/// Where the token or the id cannot be had, the failure tells why.
pub proof fn law_which_settings_are_needed(env: Environment)
    ensures
        config_failure(env) is None <==> {
            &&& env.discord_token is Ok
            &&& env.owner_id is Ok
            &&& number_of(env.owner_id->Ok_0@) is Some
            &&& number_of(env.owner_id->Ok_0@)->0 <= 0xffff_ffff_ffff_ffff
            &&& env.system_data is Some || env.data_dir is Some
        },
        env.discord_token matches Err(cause) ==> (config_failure(env) matches Some(e) && e.last()
            == cause@),
        env.discord_token is Ok ==> (env.owner_id matches Err(cause) ==> (config_failure(
            env,
        ) matches Some(e) && e.last() == cause@)),
{
}

/// The owner's id is the number that it writes.
pub proof fn law_owner_is_the_number_written(n: nat, text: Seq<char>)
    ensures
        n <= 0xffff_ffff_ffff_ffff ==> owner_number(decimal_of(n)) == Some(n),
        n > 0xffff_ffff_ffff_ffff ==> owner_number(decimal_of(n)) is None,
        owner_number(text) == Some(n) ==> number_of(text) == Some(n),
{
    law_decimal_reads_back(n);
}

/// A setting that is there is taken as it is; its default only stands for one that is not.
pub proof fn law_settings_come_before_defaults(value: Option<String>, default: Seq<char>)
    ensures
        value matches Some(s) ==> or_default(value, default) == s@,
        value is None ==> or_default(value, default) == default,
{
}

} // verus!
