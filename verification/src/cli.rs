//! Which command-line arguments are accepted, and what they ask for.

use vstd::prelude::*;

use crate::json::Json;
use crate::numbers::{parse_usize, parsed_usize};
use crate::text::{concat, same_text};

verus! {

/// Whether a name is among the agents.
pub open spec fn is_agent(value: Seq<char>, agents: Seq<&str>) -> bool {
    exists|i: int| 0 <= i < agents.len() && (#[trigger] agents[i])@ == value
}

/// The name of an agent, or why it is none.
pub fn validate_agent(value: &str, agents: &[&str]) -> (agent: Result<String, String>)
    ensures
        match agent {
            Ok(name) => is_agent(value@, agents@) && name@ == value@,
            Err(message) => !is_agent(value@, agents@) && message@ == "unknown agent: "@ + value@,
        },
{
    let mut i: usize = 0;
    while i < agents.len()
        invariant
            i <= agents@.len(),
            forall|j: int| 0 <= j < i ==> (#[trigger] agents@[j])@ != value@,
        decreases agents@.len() - i,
    {
        if same_text(agents[i], value) {
            assert(agents@[i as int]@ == value@);
            return Ok(value.to_owned());
        }
        i += 1;
    }
    Err(concat("unknown agent: ", value))
}

/// A number of sessions, or why it is none.
pub fn parse_positive_usize(value: &str) -> (number: Result<usize, String>)
    ensures
        match (number, parsed_usize(value@)) {
            (Ok(n), parsed) => n > 0 && parsed == Some(n),
            (Err(message), None) => message@ == "must be a positive integer"@,
            (Err(message), Some(n)) => n == 0 && message@ == "must be greater than zero"@,
        },
{
    match parse_usize(value) {
        Some(number) => if number == 0 {
            Err("must be greater than zero".to_owned())
        } else {
            Ok(number)
        },
        None => Err("must be a positive integer".to_owned()),
    }
}

/// The arguments that decide what is listed and how.
#[derive(Debug, Clone, Copy)]
pub struct ListingArgs {
    pub limit: Option<usize>,
    pub offset: Option<usize>,
    pub all: bool,
    pub json: bool,
    pub list_only: bool,
    pub no_refresh: bool,
    pub stats: bool,
    pub rebuild: bool,
}

/// Whether arguments that choose a page come without a list to choose from.
pub open spec fn pages_without_list(args: ListingArgs) -> bool {
    (args.limit is Some || args.offset is Some || args.all) && !args.json && !args.list_only
}

/// Whether refreshing is left out where it is not done.
pub open spec fn skips_refresh_in_vain(args: ListingArgs) -> bool {
    args.no_refresh && !args.json && !args.list_only && !args.stats
}

/// Accepts arguments that go together, or tells why they do not.
pub fn validate_pagination_args(args: &ListingArgs) -> (accepted: Result<(), String>)
    ensures
        match accepted {
            Ok(_) => !pages_without_list(*args) && !skips_refresh_in_vain(*args),
            Err(message) => if pages_without_list(*args) {
                message@ == "--limit, --offset, and --all require --json, --list, or --no-tui"@
            } else {
                skips_refresh_in_vain(*args) && message@
                    == "--no-refresh requires --json, --list, --no-tui, or --stats"@
            },
        },
{
    if (args.limit.is_some() || args.offset.is_some() || args.all) && !(args.json
        || args.list_only) {
        return Err(
            "--limit, --offset, and --all require --json, --list, or --no-tui".to_owned(),
        );
    }
    if args.no_refresh && !(args.json || args.list_only || args.stats) {
        return Err("--no-refresh requires --json, --list, --no-tui, or --stats".to_owned());
    }
    Ok(())
}

/// The part of a list that is shown.
#[derive(Debug, Clone, Copy, PartialEq, Eq, Structural)]
pub struct Page {
    pub offset: usize,
    pub limit: usize,
}

/// The page that arguments ask for, of a list of `total` sessions.
pub open spec fn chosen_page(args: ListingArgs, total: usize, default_limit: usize) -> Page {
    let offset = match args.offset {
        Some(offset) => offset,
        None => 0,
    };
    Page {
        offset,
        limit: if args.all {
            if total >= offset {
                (total - offset) as usize
            } else {
                0
            }
        } else {
            match args.limit {
                Some(limit) => limit,
                None => default_limit,
            }
        },
    }
}

/// The page that arguments ask for, of a list of `total` sessions.
pub fn page(args: &ListingArgs, total: usize, default_limit: usize) -> (page: Page)
    ensures
        page == chosen_page(*args, total, default_limit),
{
    let offset: usize = match args.offset {
        Some(offset) => offset,
        None => 0,
    };
    let limit: usize = if args.all {
        if total >= offset {
            total - offset
        } else {
            0
        }
    } else {
        match args.limit {
            Some(limit) => limit,
            None => default_limit,
        }
    };
    Page { offset, limit }
}

/// Asked for all sessions, a page reaches from its offset exactly to the end.
pub proof fn law_all_reaches_the_end(args: ListingArgs, total: usize, default_limit: usize)
    requires
        args.all,
    ensures
        ({
            let page = chosen_page(args, total, default_limit);
            page.offset <= total ==> page.offset + page.limit == total
        }),
        chosen_page(args, total, default_limit).offset >= total ==> chosen_page(
            args,
            total,
            default_limit,
        ).limit == 0,
{
}

/// What a run of the program is for.
#[derive(Debug, Clone, Copy, PartialEq, Eq, Structural)]
pub enum RunMode {
    Stats,
    Json,
    Table,
    Interactive,
}

/// What a run is for, after a rebuild if one is asked for. `None` is a run that is over
/// with the rebuild, because nothing else is asked for.
pub open spec fn chosen_mode(args: ListingArgs, query: Seq<char>) -> Option<RunMode> {
    if args.stats {
        Some(RunMode::Stats)
    } else if args.json {
        Some(RunMode::Json)
    } else if args.list_only {
        Some(RunMode::Table)
    } else if args.rebuild && query.len() == 0 {
        None
    } else {
        Some(RunMode::Interactive)
    }
}

/// What a run is for, after a rebuild if one is asked for.
pub fn run_mode(args: &ListingArgs, query: &str) -> (mode: Option<RunMode>)
    ensures
        mode == chosen_mode(*args, query@),
{
    if args.rebuild && !args.list_only && !args.json && query.is_empty() && !args.stats {
        return None;
    }
    if args.stats {
        return Some(RunMode::Stats);
    }
    if args.list_only || args.json {
        if args.json {
            return Some(RunMode::Json);
        }
        return Some(RunMode::Table);
    }
    Some(RunMode::Interactive)
}

/// Arguments that are accepted together choose a page only of a list.
pub proof fn law_pages_are_of_lists(args: ListingArgs, query: Seq<char>)
    requires
        !pages_without_list(args),
        !args.stats,
        args.limit is Some || args.offset is Some || args.all,
    ensures
        chosen_mode(args, query) == Some(RunMode::Json) || chosen_mode(args, query) == Some(
            RunMode::Table,
        ),
{
}

/// Whether an agent is among those that are asked for: all, or one.
pub fn selects_agent(wanted: &Option<String>, agent: &str) -> (selected: bool)
    ensures
        selected == match *wanted {
            Some(name) => name@ == agent@,
            None => true,
        },
{
    match wanted {
        Some(name) => same_text(name.as_str(), agent),
        None => true,
    }
}

/// How pictures can be shown in a terminal.
#[derive(Debug, Clone, Copy, PartialEq, Eq, Structural)]
pub enum ImageProtocol {
    Auto,
    Kitty,
    Sixel,
    Iterm2,
}

/// How pictures are shown, if they are wanted.
pub fn image_protocol(no_images: bool, protocol: ImageProtocol) -> (shown: Option<ImageProtocol>)
    ensures
        shown == if no_images {
            None
        } else {
            Some(protocol)
        },
{
    if no_images {
        None
    } else {
        Some(protocol)
    }
}

/// A page begins at the offset that is asked for, or at the start; unless all sessions are
/// asked for, it has the length that is asked for, or the usual one.
pub proof fn law_page_is_as_asked_for(args: ListingArgs, total: usize, default_limit: usize)
    ensures
        ({
            let page = chosen_page(args, total, default_limit);
            &&& args.offset matches Some(offset) ==> page.offset == offset
            &&& args.offset is None ==> page.offset == 0
            &&& !args.all && args.limit is Some ==> page.limit == args.limit->0
            &&& !args.all && args.limit is None ==> page.limit == default_limit
            &&& args.all && page.offset <= total ==> page.limit == total - page.offset
        }),
{
}

/// Statistics come before a list, a list for programs before one for people, and either
/// before the interface; only a rebuild for which nothing is asked ends with itself.
pub proof fn law_purpose_of_a_run(args: ListingArgs, query: Seq<char>)
    ensures
        args.stats ==> chosen_mode(args, query) == Some(RunMode::Stats),
        !args.stats && args.json ==> chosen_mode(args, query) == Some(RunMode::Json),
        !args.stats && !args.json && args.list_only ==> chosen_mode(args, query) == Some(
            RunMode::Table,
        ),
        !args.stats && !args.json && !args.list_only && (!args.rebuild || query.len() > 0)
            ==> chosen_mode(args, query) == Some(RunMode::Interactive),
        chosen_mode(args, query) is None <==> (args.rebuild && query.len() == 0 && !args.stats
            && !args.json && !args.list_only),
{
}

/// Arguments that choose a page are accepted with a list, and refused without one; leaving
/// out the refresh is accepted with a list or statistics, and refused without them.
pub proof fn law_arguments_that_go_together(args: ListingArgs)
    ensures
        args.json || args.list_only ==> !pages_without_list(args) && !skips_refresh_in_vain(args),
        !args.json && !args.list_only ==> (pages_without_list(args) <==> (args.limit is Some
            || args.offset is Some || args.all)),
        args.stats ==> !skips_refresh_in_vain(args),
        !args.json && !args.list_only && !args.stats ==> (skips_refresh_in_vain(args)
            <==> args.no_refresh),
{
}

/// An agent is one of those that are listed, wherever it stands among them.
pub proof fn law_listed_agents(value: Seq<char>, left: Seq<&str>, right: Seq<&str>, name: &str)
    ensures
        is_agent(value, left + right) <==> is_agent(value, left) || is_agent(value, right),
        is_agent(value, seq![name]) <==> name@ == value,
        !is_agent(value, seq![]),
{
    let all = left + right;
    assert forall|i: int| 0 <= i < left.len() implies all[i] == #[trigger] left[i] by {}
    assert forall|i: int| 0 <= i < right.len() implies all[left.len() + i] == #[trigger] right[i] by {
    }
    if is_agent(value, all) {
        let i = choose|i: int| 0 <= i < all.len() && (#[trigger] all[i])@ == value;
        assert(if i < left.len() {
            left[i]@ == value
        } else {
            right[i - left.len()]@ == value
        });
    }
    assert(seq![name][0] == name);
}

} // verus!
