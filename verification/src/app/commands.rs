//! The `context` and `a2a` commands.

use crate::app::context_size::SessionContext;
use crate::app::context_size::SessionView;
use crate::app::context_size::short_id;
use crate::app::context_size::warns;
use crate::infra::paths::agent_bus_socket;
use crate::infra::paths::bus_socket_of;
use crate::text::CharClass;
use crate::text::align_left;
use crate::text::align_right;
use crate::text::concat2;
use crate::text::concat3;
use crate::text::decimal;
use crate::text::format_u64;
use crate::text::law_columns_are_filled;
use crate::text::opt_text;
use crate::text::repeated;
use crate::text::text_eq;
use crate::text::texts;
use crate::text::to_left;
use crate::text::to_right;
use crate::text::trimmed;
use vstd::prelude::*;

verus! {

// ─── Context ────────────────────────────────────────────────────────────────

/// How a command prints its result.
#[derive(Debug, Clone, Copy, PartialEq, Eq, Structural)]
pub enum OutputFormat {
    Table,
    Json,
}

/// Reads the format of the `context` command.
pub fn context_format(format: &str) -> (r: Result<OutputFormat, String>)
    ensures
        match r {
            Ok(OutputFormat::Table) => format@ == "table"@,
            Ok(OutputFormat::Json) => format@ == "json"@,
            Err(e) => format@ != "table"@ && format@ != "json"@ && e@ == "unknown --format '"@
                + format@ + "' (use 'table' or 'json')"@,
        },
{
    if text_eq(format, "table") {
        Ok(OutputFormat::Table)
    } else if text_eq(format, "json") {
        Ok(OutputFormat::Json)
    } else {
        Err(concat3("unknown --format '", format, "' (use 'table' or 'json')"))
    }
}

/// The format of the `usage` command: a table, unless JSON is asked for.
pub fn usage_format(format: &str) -> (r: OutputFormat)
    ensures
        r == (if format@ == "json"@ {
            OutputFormat::Json
        } else {
            OutputFormat::Table
        }),
{
    if text_eq(format, "json") {
        OutputFormat::Json
    } else {
        OutputFormat::Table
    }
}

/// Cells in the columns of the context table.
pub open spec fn context_cells(
    agent: Seq<char>,
    session: Seq<char>,
    model: Seq<char>,
    tokens: Seq<char>,
    limit: Seq<char>,
    rest: Seq<char>,
) -> Seq<char> {
    to_left(agent, 16) + " "@ + to_left(session, 10) + " "@ + to_left(model, 28) + " "@ + to_left(
        tokens,
        10,
    ) + " "@ + to_left(limit, 10) + " "@ + rest
}

fn build_cells(cells: [&str; 6]) -> (r: String)
    ensures
        r@ == context_cells(cells[0]@, cells[1]@, cells[2]@, cells[3]@, cells[4]@, cells[5]@),
{
    let mut out = align_left(cells[0], 16);
    out.append(" ");
    out.append(align_left(cells[1], 10).as_str());
    out.append(" ");
    out.append(align_left(cells[2], 28).as_str());
    out.append(" ");
    out.append(align_left(cells[3], 10).as_str());
    out.append(" ");
    out.append(align_left(cells[4], 10).as_str());
    out.append(" ");
    out.append(cells[5]);
    out
}

/// What stands above the sessions: the names of the columns and a line.
pub open spec fn context_head_lines() -> Seq<Seq<char>> {
    seq![
        context_cells("AGENT"@, "SESSION"@, "MODEL"@, "TOKENS"@, "LIMIT"@, "%"@),
        Seq::new(86, |i: int| '─'),
    ]
}

/// The row of a session; `percent` is the used share of its window in percent.
pub open spec fn context_row_text(s: SessionView, percent: Seq<char>) -> Seq<char> {
    context_cells(
        s.agent,
        short_id(s.session_id),
        s.model,
        match s.context_tokens {
            Some(t) => decimal(t as nat),
            None => "n/a"@,
        },
        decimal(s.context_limit as nat),
        (match s.context_tokens {
            Some(_) => to_right(percent, 5) + "%"@,
            None => "    -"@,
        }) + (if warns(s) {
            "  ⚠️"@
        } else {
            ""@
        }),
    )
}

/// The lines above the sessions.
pub fn context_head() -> (r: Vec<String>)
    ensures
        texts(r@) == context_head_lines(),
{
    let mut out: Vec<String> = Vec::new();
    out.push(build_cells(["AGENT", "SESSION", "MODEL", "TOKENS", "LIMIT", "%"]));
    out.push(repeated('─', 86));
    assert(texts(out@) =~= context_head_lines());
    out
}

/// The row of a session; `percent` is the used share of its window in percent, with one
/// decimal, and counts only where the tokens are known.
pub fn context_row(s: &SessionContext, percent: &str) -> (r: String)
    ensures
        r@ == context_row_text(s@, percent@),
{
    let short = s.session_short();
    let tokens = match s.context_tokens {
        Some(t) => format_u64(t),
        None => "n/a".to_owned(),
    };
    let limit = format_u64(s.context_limit);
    let share = match s.context_tokens {
        Some(_) => concat2(align_right(percent, 5).as_str(), "%"),
        None => "    -".to_owned(),
    };
    let rest = concat2(
        share.as_str(),
        if s.is_warning() {
            "  ⚠️"
        } else {
            ""
        },
    );
    build_cells(
        [
            s.agent.as_str(),
            short.as_str(),
            s.model.as_str(),
            tokens.as_str(),
            limit.as_str(),
            rest.as_str(),
        ],
    )
}

// ─── A2A ────────────────────────────────────────────────────────────────────

/// The `a2a` section of a workspace.
#[derive(Debug, Clone)]
pub struct A2aConfig {
    /// How callers prove who they are; `jwt` takes a key.
    pub auth: String,
    /// Where the key is kept, if not at the default place.
    pub private_key: Option<String>,
    /// The address that the server listens on.
    pub listen: String,
}

/// The key to be loaded for the server; `None` where callers need no token.
pub fn server_key_path(cfg: &A2aConfig, default_path: &str) -> (r: Option<String>)
    ensures
        opt_text(r) == if cfg.auth@ != "jwt"@ {
            None
        } else {
            Some(
                match opt_text(cfg.private_key) {
                    Some(path) => path,
                    None => default_path@,
                },
            )
        },
{
    if !text_eq(cfg.auth.as_str(), "jwt") {
        return None;
    }
    match &cfg.private_key {
        Some(path) => Some(path.clone()),
        None => Some(default_path.to_owned()),
    }
}

/// The address that the server listens on: the one asked for, or that of the section.
pub fn listen_address(asked: &Option<String>, cfg: &A2aConfig) -> (r: String)
    ensures
        r@ == (match opt_text(*asked) {
            Some(address) => address,
            None => cfg.listen@,
        }),
{
    match asked {
        Some(address) => address.clone(),
        None => cfg.listen.clone(),
    }
}

/// The bus that the server posts to: that of a running agent, or the one that the first
/// agent of the workspace would have.
pub fn server_bus_socket(served: &Option<String>, first_work_dir: &Option<String>) -> (r: Result<
    String,
    String,
>)
    ensures
        match r {
            Ok(socket) => match opt_text(*served) {
                Some(s) => socket@ == s,
                None => opt_text(*first_work_dir) matches Some(dir) && socket@ == bus_socket_of(
                    dir,
                ),
            },
            Err(e) => served is None && first_work_dir is None && e@
                == "no bus socket found — is deskd serve running?"@,
        },
{
    match served {
        Some(s) => Ok(s.clone()),
        None => match first_work_dir {
            Some(dir) => Ok(agent_bus_socket(dir.as_str())),
            None => Err("no bus socket found — is deskd serve running?".to_owned()),
        },
    }
}

/// What is said where a key is to be generated and one is kept already.
pub fn key_exists_message(path: &str) -> (r: String)
    ensures
        r@ == "Key already exists at "@ + path@ + ". Remove it first to regenerate."@,
{
    concat3("Key already exists at ", path, ". Remove it first to regenerate.")
}

/// The row of a session shows the agent, the session, the model, the tokens and the window
/// in columns that start at fixed places, where each fits its column.
pub proof fn law_row_in_columns(s: &SessionContext, percent: &str, r: String)
    requires
        call_ensures(context_row, (s, percent), r),
        s.agent@.len() <= 16,
        s.model@.len() <= 28,
        s.context_tokens matches Some(t) ==> decimal(t as nat).len() <= 10,
        decimal(s.context_limit as nat).len() <= 10,
        s.session_id@.len() >= 8,
        trimmed(s.session_id@, CharClass::White) == s.session_id@,
    ensures
        r@.len() >= 79,
        r@.take(s.agent@.len() as int) == s.agent@,
        r@.subrange(17, 25) == s.session_id@.take(8),
        r@.subrange(28, 28int + s.model@.len()) == s.model@,
        s.context_tokens matches Some(t) ==> r@.subrange(57, 57int + decimal(t as nat).len())
            == decimal(t as nat),
        s.context_tokens is None ==> r@.subrange(57, 60) == "n/a"@,
        r@.subrange(68, 68int + decimal(s.context_limit as nat).len()) == decimal(
            s.context_limit as nat,
        ),
        s.context_tokens matches Some(_) && percent@.len() <= 5 ==> r@.subrange(
            84 - percent@.len(),
            85,
        ) == percent@ + "%"@,
{
    reveal_strlit(" ");
    reveal_strlit("%");
    reveal_strlit("n/a");
    reveal_strlit("    -");
    let v = s@;
    let tokens = match v.context_tokens {
        Some(t) => decimal(t as nat),
        None => "n/a"@,
    };
    let limit = decimal(v.context_limit as nat);
    assert(short_id(v.session_id) =~= v.session_id.take(8));
    law_columns_are_filled(v.agent, 16);
    law_columns_are_filled(v.session_id.take(8), 10);
    law_columns_are_filled(v.model, 28);
    law_columns_are_filled(tokens, 10);
    law_columns_are_filled(limit, 10);
    law_columns_are_filled(percent@, 5);
    assert(r@.take(s.agent@.len() as int) =~= s.agent@);
    assert(r@.subrange(17, 25) =~= s.session_id@.take(8));
    assert(r@.subrange(28, 28int + s.model@.len()) =~= s.model@);
    assert(r@.subrange(57, 57int + tokens.len()) =~= tokens);
    assert(r@.subrange(68, 68int + limit.len()) =~= limit);
    if v.context_tokens is Some && percent@.len() <= 5 {
        let share = to_right(percent@, 5);
        assert(share.skip(share.len() - percent@.len()) == percent@);
        assert(r@.subrange(84 - percent@.len(), 85) =~= percent@ + "%"@);
    }
}

/// A key is loaded where callers prove who they are by a token, and only there: the one
/// that the section names, or else the default one.
pub proof fn law_key_is_for_tokens(cfg: &A2aConfig, default_path: &str, r: Option<String>)
    requires
        call_ensures(server_key_path, (cfg, default_path), r),
    ensures
        cfg.auth@ == "jwt"@ <==> r is Some,
        r matches Some(p) ==> (cfg.private_key matches Some(k) ==> p@ == k@),
        r matches Some(p) ==> (cfg.private_key is None ==> p@ == default_path@),
{
}

} // verus!
