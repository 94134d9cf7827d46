use stackable_agent::package::Package;
use stackable_agent::provider::{
    convert_to_repo_provider, ConversionError, RepositoryDefinition, RepositoryKind, RepositoryProvider,
};
use stackable_agent::resolver::{
    choose_repository_provider, DefinitionFetchError, QueryAnswer, QueryError, Resolution, Step,
};

fn definition(name: &str, url: &str) -> RepositoryDefinition {
    RepositoryDefinition {
        name: name.to_string(),
        kind: "StackableRepo".to_string(),
        properties: vec![("url".to_string(), url.to_string())],
    }
}

fn failed() -> QueryAnswer {
    Err(QueryError { reason: "unreachable".to_string() })
}

/// Runs a search to its end, answering each query from `answers` by name,
/// and returns the chosen provider's name and the names queried in order.
fn run(defs: &Vec<RepositoryDefinition>, answers: &[(&str, QueryAnswer)]) -> (Option<String>, Vec<String>) {
    let mut resolution = Resolution::new(defs);
    let mut queried = Vec::new();
    loop {
        match resolution.next_step() {
            Step::Query(i) => {
                let name = resolution.candidate(i).name().clone();
                let answer = answers
                    .iter()
                    .find(|(n, _)| *n == name)
                    .map(|(_, a)| a.clone())
                    .unwrap_or_else(failed);
                queried.push(name);
                resolution.record_answer(&answer);
            }
            Step::Found(_) | Step::Exhausted => break,
        }
    }
    let chosen = resolution.into_result().map(|p| p.name().clone());
    (chosen, queried)
}

#[test]
fn earlier_name_wins_when_both_match() {
    let defs = vec![definition("b", "https://b.example.org"), definition("a", "https://a.example.org")];
    let (chosen, queried) = run(&defs, &[("b", Ok(true)), ("a", Ok(true))]);
    assert_eq!(chosen, Some("a".to_string()));
    assert_eq!(queried, vec!["a".to_string()]);
}

#[test]
fn search_stops_at_first_match() {
    let defs = vec![
        definition("c", "https://c.example.org"),
        definition("b", "https://b.example.org"),
        definition("a", "https://a.example.org"),
    ];
    let (chosen, queried) = run(&defs, &[("a", Ok(false)), ("b", Ok(true)), ("c", Ok(true))]);
    assert_eq!(chosen, Some("b".to_string()));
    assert_eq!(queried, vec!["a".to_string(), "b".to_string()]);
}

#[test]
fn failed_query_counts_as_no_match() {
    let defs = vec![definition("a", "https://a.example.org"), definition("b", "https://b.example.org")];
    let (chosen, queried) = run(&defs, &[("a", failed()), ("b", Ok(true))]);
    assert_eq!(chosen, Some("b".to_string()));
    assert_eq!(queried, vec!["a".to_string(), "b".to_string()]);
}

#[test]
fn malformed_definition_is_skipped() {
    let broken = RepositoryDefinition {
        name: "a".to_string(),
        kind: "StackableRepo".to_string(),
        properties: vec![],
    };
    let defs = vec![broken, definition("b", "https://b.example.org")];
    let resolution = Resolution::new(&defs);
    assert_eq!(resolution.candidate_count(), 1);
    let (chosen, _) = run(&defs, &[("a", Ok(true)), ("b", Ok(true))]);
    assert_eq!(chosen, Some("b".to_string()));
}

#[test]
fn no_match_gives_none() {
    let defs = vec![definition("a", "https://a.example.org"), definition("b", "http://b.example.org")];
    let (chosen, queried) = run(&defs, &[("a", Ok(false)), ("b", failed())]);
    assert_eq!(chosen, None);
    assert_eq!(queried, vec!["a".to_string(), "b".to_string()]);
}

#[test]
fn empty_listing_gives_none_without_queries() {
    let (chosen, queried) = run(&Vec::new(), &[]);
    assert_eq!(chosen, None);
    assert!(queried.is_empty());
}

#[test]
fn failed_listing_is_the_error() {
    let listing: Result<Vec<RepositoryDefinition>, DefinitionFetchError> =
        Err(DefinitionFetchError { reason: "forbidden".to_string() });
    match Resolution::from_listing(listing) {
        Err(e) => assert_eq!(e.reason, "forbidden"),
        Ok(_) => panic!("a failed listing must fail the search"),
    }
}

#[test]
fn successful_listing_starts_a_search() {
    let listing: Result<Vec<RepositoryDefinition>, DefinitionFetchError> =
        Ok(vec![definition("z", "https://z.example.org"), definition("m", "https://m.example.org")]);
    let resolution = match Resolution::from_listing(listing) {
        Ok(r) => r,
        Err(_) => panic!("listing succeeded"),
    };
    assert_eq!(resolution.candidate_count(), 2);
    assert_eq!(resolution.consulted(), 0);
    assert_eq!(resolution.next_step(), Step::Query(0));
    assert_eq!(resolution.candidate(0).name(), "m");
    assert_eq!(resolution.candidate(1).name(), "z");
}

#[test]
fn same_listing_same_answers_same_result() {
    let defs = vec![
        definition("beta", "https://beta.example.org"),
        definition("alpha", "https://alpha.example.org"),
        definition("gamma", "https://gamma.example.org"),
    ];
    let answers = [("alpha", Ok(false)), ("beta", Ok(true)), ("gamma", Ok(true))];
    let first = run(&defs, &answers);
    let second = run(&defs, &answers);
    assert_eq!(first, second);
    let reordered = vec![defs[2].clone(), defs[0].clone(), defs[1].clone()];
    assert_eq!(run(&reordered, &answers), first);
    assert_eq!(first.0, Some("beta".to_string()));
}

#[test]
fn names_order_by_character() {
    let defs = vec![
        definition("ab", "https://x.example.org"),
        definition("a", "https://x.example.org"),
        definition("B", "https://x.example.org"),
        definition("aa", "https://x.example.org"),
    ];
    let resolution = Resolution::new(&defs);
    let names: Vec<String> = (0..resolution.candidate_count())
        .map(|i| resolution.candidate(i).name().clone())
        .collect();
    assert_eq!(names, vec!["B", "a", "aa", "ab"]);
}

#[test]
fn equal_names_keep_listing_order() {
    let defs = vec![definition("a", "https://first.example.org"), definition("a", "https://second.example.org")];
    let resolution = Resolution::new(&defs);
    assert_eq!(resolution.candidate(0).base_url(), "https://first.example.org");
    assert_eq!(resolution.candidate(1).base_url(), "https://second.example.org");
}

#[test]
fn conversion_of_valid_definition() {
    let p = RepositoryProvider::try_from_definition(&definition("main", "https://repo.example.org/packages")).unwrap();
    assert_eq!(p.name(), "main");
    assert_eq!(p.base_url(), "https://repo.example.org/packages");
    assert_eq!(p.kind(), RepositoryKind::Stackable);
}

#[test]
fn conversion_uses_first_url_property() {
    let d = RepositoryDefinition {
        name: "main".to_string(),
        kind: "StackableRepo".to_string(),
        properties: vec![
            ("mirror".to_string(), "https://mirror.example.org".to_string()),
            ("url".to_string(), "http://one.example.org".to_string()),
            ("url".to_string(), "http://two.example.org".to_string()),
        ],
    };
    let p = convert_to_repo_provider(&d).unwrap();
    assert_eq!(p.base_url(), "http://one.example.org");
}

#[test]
fn conversion_errors() {
    let mut d = definition("", "https://a.example.org");
    assert_eq!(RepositoryProvider::try_from_definition(&d).err(), Some(ConversionError::MissingName));
    d.name = "a".to_string();
    d.kind = "HelmRepo".to_string();
    assert_eq!(RepositoryProvider::try_from_definition(&d).err(), Some(ConversionError::UnsupportedKind));
    d.kind = "StackableRepo".to_string();
    d.properties = vec![("URL".to_string(), "https://a.example.org".to_string())];
    assert_eq!(RepositoryProvider::try_from_definition(&d).err(), Some(ConversionError::MissingUrl));
    for bad in ["ftp://a.example.org", "https://", "http://", "a.example.org", ""] {
        d.properties = vec![("url".to_string(), bad.to_string())];
        assert_eq!(RepositoryProvider::try_from_definition(&d).err(), Some(ConversionError::InvalidUrl));
        assert!(convert_to_repo_provider(&d).is_none());
    }
    d.properties = vec![("url".to_string(), "http://x".to_string())];
    assert!(convert_to_repo_provider(&d).is_some());
}

#[test]
fn chooser_goes_by_candidate_order() {
    let defs = vec![
        definition("a", "https://a.example.org"),
        definition("b", "https://b.example.org"),
        definition("c", "https://c.example.org"),
    ];
    let providers: Vec<RepositoryProvider> = defs.iter().filter_map(convert_to_repo_provider).collect();
    let chosen = choose_repository_provider(providers, &vec![failed(), Ok(true), Ok(true)]);
    assert_eq!(chosen.unwrap().name(), "b");
    let providers: Vec<RepositoryProvider> = defs.iter().filter_map(convert_to_repo_provider).collect();
    assert!(choose_repository_provider(providers, &vec![Ok(false), failed(), Ok(false)]).is_none());
}

#[test]
fn package_text_and_identity() {
    let p = Package::new("spark".to_string(), Some("3.0.1".to_string()));
    assert_eq!(p.text(), "spark:3.0.1");
    let q = Package::new("spark".to_string(), None);
    assert_eq!(q.text(), "spark");
    assert!(!p.same_as(&q));
    assert!(p.same_as(&Package::new("spark".to_string(), Some("3.0.1".to_string()))));
}
