use std::path::PathBuf;

use fast_resume::cli::{
    image_protocol, page, parse_positive_usize, run_mode, selects_agent, validate_agent,
    validate_pagination_args, ImageProtocol, ListingArgs, Page, RunMode,
};
use fast_resume::config::{index_dir, index_dir_below, NamedDir};

fn none() -> ListingArgs {
    ListingArgs {
        limit: None,
        offset: None,
        all: false,
        json: false,
        list_only: false,
        no_refresh: false,
        stats: false,
        rebuild: false,
    }
}

#[test]
fn agents_are_validated_by_name() {
    let agents = ["antigravity", "cursor"];
    assert_eq!(validate_agent("cursor", &agents), Ok("cursor".to_string()));
    assert_eq!(validate_agent("cursors", &agents), Err("unknown agent: cursors".to_string()));
    assert_eq!(validate_agent("", &[]), Err("unknown agent: ".to_string()));
}

#[test]
fn limits_are_positive_numbers() {
    assert_eq!(parse_positive_usize("25"), Ok(25));
    assert_eq!(parse_positive_usize("+7"), Ok(7));
    assert_eq!(parse_positive_usize("007"), Ok(7));
    assert_eq!(parse_positive_usize(&usize::MAX.to_string()), Ok(usize::MAX));
    for zero in ["0", "+00"] {
        assert_eq!(parse_positive_usize(zero), Err("must be greater than zero".to_string()));
    }
    for bad in ["", "+", "-1", "1 ", "1.5", "ten", "++1", "99999999999999999999999"] {
        assert_eq!(parse_positive_usize(bad), Err("must be a positive integer".to_string()));
    }
}

#[test]
fn pages_need_a_list() {
    let pages = "--limit, --offset, and --all require --json, --list, or --no-tui";
    let refresh = "--no-refresh requires --json, --list, --no-tui, or --stats";
    assert_eq!(validate_pagination_args(&none()), Ok(()));
    for args in [
        ListingArgs { limit: Some(1), ..none() },
        ListingArgs { offset: Some(0), stats: true, ..none() },
        ListingArgs { all: true, no_refresh: true, ..none() },
    ] {
        assert_eq!(validate_pagination_args(&args), Err(pages.to_string()));
        assert_eq!(validate_pagination_args(&ListingArgs { json: true, ..args }), Ok(()));
        assert_eq!(validate_pagination_args(&ListingArgs { list_only: true, ..args }), Ok(()));
    }
    let args = ListingArgs { no_refresh: true, ..none() };
    assert_eq!(validate_pagination_args(&args), Err(refresh.to_string()));
    assert_eq!(validate_pagination_args(&ListingArgs { stats: true, ..args }), Ok(()));
}

#[test]
fn pages_reach_as_far_as_asked() {
    assert_eq!(page(&none(), 100, 20), Page { offset: 0, limit: 20 });
    let args = ListingArgs { limit: Some(5), offset: Some(98), ..none() };
    assert_eq!(page(&args, 100, 20), Page { offset: 98, limit: 5 });
    let args = ListingArgs { all: true, offset: Some(30), ..none() };
    assert_eq!(page(&args, 100, 20), Page { offset: 30, limit: 70 });
    assert_eq!(page(&args, 10, 20), Page { offset: 30, limit: 0 });
}

#[test]
fn modes_follow_the_arguments() {
    assert_eq!(run_mode(&none(), ""), Some(RunMode::Interactive));
    let rebuild = ListingArgs { rebuild: true, ..none() };
    assert_eq!(run_mode(&rebuild, ""), None);
    assert_eq!(run_mode(&rebuild, "query"), Some(RunMode::Interactive));
    assert_eq!(run_mode(&ListingArgs { stats: true, ..rebuild }, ""), Some(RunMode::Stats));
    assert_eq!(run_mode(&ListingArgs { list_only: true, ..rebuild }, ""), Some(RunMode::Table));
    let both = ListingArgs { json: true, list_only: true, ..none() };
    assert_eq!(run_mode(&both, ""), Some(RunMode::Json));
    assert_eq!(run_mode(&ListingArgs { stats: true, ..both }, ""), Some(RunMode::Stats));
}

#[test]
fn agents_and_pictures_are_selected() {
    assert!(selects_agent(&None, "cursor"));
    assert!(selects_agent(&Some("cursor".to_string()), "cursor"));
    assert!(!selects_agent(&Some("cursor".to_string()), "antigravity"));
    assert_eq!(image_protocol(true, ImageProtocol::Kitty), None);
    assert_eq!(image_protocol(false, ImageProtocol::Sixel), Some(ImageProtocol::Sixel));
}

#[test]
fn the_index_is_kept_below_an_absolute_cache_directory() {
    let named = |text: &str| {
        Some(NamedDir { place: PathBuf::from(text), text: text.to_string() })
    };
    let home = || PathBuf::from("/home/me");
    let below_home = vec![".cache", "fast-resume", "tantivy_index"];
    let path = index_dir(named("/var/cache"), home());
    assert_eq!(*path.base(), PathBuf::from("/var/cache"));
    assert_eq!(*path.names(), vec!["fast-resume", "tantivy_index"]);
    for unusable in [None, named(""), named("relative/cache")] {
        let path = index_dir(unusable, home());
        assert_eq!(*path.base(), home());
        assert_eq!(*path.names(), below_home);
    }
    assert_eq!(*index_dir_below(named("/x"), true, home()).base(), PathBuf::from("/x"));
    assert_eq!(*index_dir_below(named("/x"), false, home()).names(), below_home);
    assert_eq!(*index_dir_below(None, true, home()).names(), below_home);
}
