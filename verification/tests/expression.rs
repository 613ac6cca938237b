use std::cell::RefCell;
use std::collections::BTreeMap;

use fcb::identity::ArenaOwnerId;
use fcb::search::expression::plan::{ExpressionPlan, ParsedQuery};
use fcb::search::expression::{ExpressionError, QueryError};

fn owner() -> ArenaOwnerId {
    ArenaOwnerId::new(2670).unwrap()
}

/// A host that grants each allocation once.
#[derive(Default)]
struct Budget {
    taken: RefCell<BTreeMap<u64, u64>>,
}

impl Budget {
    fn reserve(&self, id: u64, charge: u64) -> bool {
        let mut taken = self.taken.borrow_mut();
        if taken.contains_key(&id) {
            return false;
        }
        taken.insert(id, charge);
        true
    }
}

/// Parts of a path that must occur, and parts that must not.
#[derive(Debug)]
struct PathFilters {
    included: Vec<String>,
    excluded: Vec<String>,
}

/// The ending that the names of a language have.
#[derive(Debug)]
struct LangFilter {
    suffix: String,
}

type Plan = ExpressionPlan<PathFilters, LangFilter>;

fn path_passes(key: &str, filters: &PathFilters) -> bool {
    filters.included.iter().all(|part| key.contains(part.as_str()))
        && !filters.excluded.iter().any(|part| key.contains(part.as_str()))
}

fn lang_passes(key: &str, filter: &LangFilter) -> bool {
    key.ends_with(filter.suffix.as_str())
}

/// A stand-in for the host's parser.
fn parse(query: &str) -> Result<ParsedQuery<PathFilters, LangFilter>, QueryError> {
    if query.matches('"').count() % 2 == 1 {
        return Err(QueryError::Malformed);
    }
    let mut syntax = ParsedQuery {
        primary_needle: String::new(),
        exclusion_terms: Vec::new(),
        conjunction_terms: Vec::new(),
        path_filters: PathFilters { included: Vec::new(), excluded: Vec::new() },
        lang_filters: LangFilter { suffix: String::new() },
    };
    let mut rest = query.trim();
    while !rest.is_empty() {
        let (word, after) = if let Some(quoted) = rest.strip_prefix('"') {
            let end = quoted.find('"').unwrap();
            (&quoted[..end], &quoted[end + 1..])
        } else {
            rest.split_once(' ').unwrap_or((rest, ""))
        };
        if let Some(path) = word.strip_prefix("-path:") {
            syntax.path_filters.excluded.push(path.to_string());
        } else if let Some(path) = word.strip_prefix("path:") {
            syntax.path_filters.included.push(path.to_string());
        } else if let Some(lang) = word.strip_prefix("lang:") {
            assert!(lang == "rust" || lang == "rs");
            syntax.lang_filters.suffix = ".rs".to_string();
        } else if let Some(term) = word.strip_prefix('-') {
            syntax.exclusion_terms.push(term.to_string());
        } else if syntax.primary_needle.is_empty() {
            syntax.primary_needle = word.to_string();
        } else {
            syntax.conjunction_terms.push(word.to_string());
        }
        rest = after.trim();
    }
    Ok(syntax)
}

fn plan(query: &str, allocation: u64, first: u64) -> Result<Plan, ExpressionError> {
    let budget = Budget::default();
    ExpressionPlan::parse(
        owner(),
        query,
        1024,
        256,
        allocation,
        first,
        |id, charge| budget.reserve(id, charge),
        parse,
    )
}

fn admits(plan: &Plan, native: &[u8]) -> bool {
    plan.admits(
        &native.to_vec(),
        &mut |path: &Vec<u8>| String::from_utf8_lossy(path).into_owned(),
        &mut path_passes,
        &mut lang_passes,
    )
}

#[test]
fn parse_and_pattern_admission_are_atomic() {
    assert!(plan("\"unterminated", 1, 10).is_err());
    assert!(plan("needle required -excluded", 11, 10).is_err());
    let plan = plan("\"pub fn\" Result -unsafe path:src/ lang:rust", 1, 10).unwrap();
    assert_eq!(plan.syntax.primary_needle, "pub fn");
    assert_eq!(plan.patterns.len(), 3);
    assert!(admits(&plan, b"src/lib.rs"));
    assert!(!admits(&plan, b"src/lib.py"));
}

#[test]
fn metadata_keys_follow_existing_capture_filter_semantics() {
    let plan = plan("needle path:src/ -path:tests lang:rs", 1, 10).unwrap();
    assert!(admits(&plan, b"src/\xff.rs"));
    assert!(!admits(&plan, b"src/tests/\xff.rs"));
    assert!(!admits(&plan, b"src/\xff.py"));
}

#[test]
fn long_queries_are_refused_before_they_are_parsed() {
    let long = "x".repeat(1025);
    assert!(matches!(
        plan(&long, 1, 10),
        Err(ExpressionError::Syntax(QueryError::NeedleTooLong))
    ));
}

#[test]
fn filters_of_a_plan_see_the_plans_own_filters() {
    let plan = plan("needle path:src/ lang:rs", 1, 10).unwrap();
    let mut escaped = 0;
    let mut asked = Vec::new();
    let mut langs = Vec::new();
    for native in [&b"src/a.rs"[..], b"lib/a.rs", b"src/\xff.rs"] {
        plan.admits(
            &native.to_vec(),
            &mut |path: &Vec<u8>| {
                escaped += 1;
                format!("{} bytes", path.len())
            },
            &mut |key: &str, filters: &PathFilters| {
                assert_eq!(filters.included, vec!["src/".to_string()]);
                asked.push(key.to_string());
                path_passes(key, filters)
            },
            &mut |key: &str, filter: &LangFilter| {
                assert_eq!(filter.suffix, ".rs");
                langs.push(key.to_string());
                true
            },
        );
    }
    assert_eq!(escaped, 1);
    assert_eq!(asked, vec!["src/a.rs", "lib/a.rs", "8 bytes"]);
    // A path that is refused is not asked for its language.
    assert_eq!(langs, vec!["src/a.rs"]);
}
