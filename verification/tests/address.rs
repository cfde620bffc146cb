use flotilla_core::address::{
    allocate_convoy_generation, convoy_address, convoy_disambiguation_address, parse_role_address, resolve_convoy_candidate_indices,
    resolve_live_convoy_record, resolve_local_convoy_name, ConvoyAddressIdentity, ConvoyGeneration, ConvoySource, LiveConvoyRecord,
    RoleAddress,
};
use flotilla_core::model::ConvoyPhase;

fn identity<'a>(record_name: &'a str, role: Option<&'a str>, project: Option<&'a str>, terminal: bool) -> ConvoyAddressIdentity<'a> {
    ConvoyAddressIdentity { record_name, role, project, terminal }
}

fn source(name: &str, role: &str, project: Option<&str>, phase: Option<ConvoyPhase>, host: Option<&str>) -> ConvoySource {
    ConvoySource {
        record_name: name.to_string(),
        role: role.to_string(),
        project_ref: project.map(str::to_string),
        phase,
        owner_host: host.map(str::to_string),
    }
}

fn generation(project: Option<&str>, role: &str, labelled: Option<u64>, generation: u64, phase: Option<ConvoyPhase>) -> ConvoyGeneration {
    ConvoyGeneration { project_ref: project.map(str::to_string), role: role.to_string(), labelled, generation, phase }
}

#[test]
fn convoy_role_addresses_reject_malformed_values() {
    assert_eq!(parse_role_address("inspector"), Ok(("inspector", None)));
    assert_eq!(parse_role_address("inspector@flotilla"), Ok(("inspector", Some("flotilla"))));
    assert_eq!(parse_role_address("inspector@"), Ok(("inspector", Some(""))));
    for value in ["@project", "a@b@c"] {
        assert_eq!(parse_role_address(value), Err(format!("invalid convoy address `{value}`: expected role@project")));
    }
    assert_eq!(parse_role_address(""), Err("convoy role cannot be empty".to_string()));
}

#[test]
fn qualified_role_address_is_a_typed_project_role_pair() {
    assert_eq!(
        RoleAddress::from_str("governor@andamento"),
        Ok(RoleAddress { project: "andamento".to_string(), role: "governor".to_string() })
    );
    for value in ["governor", "@andamento", "governor@", "governor@andamento@extra"] {
        assert!(RoleAddress::from_str(value).is_err(), "{value} must not produce a qualified address");
    }
}

#[test]
fn a_role_address_reads_back_from_its_text() {
    let address = RoleAddress { project: "andamento".to_string(), role: "governor".to_string() };
    assert_eq!(address.to_text(), "governor@andamento");
    assert_eq!(RoleAddress::from_str(&address.to_text()), Ok(address));
}

#[test]
fn the_text_of_a_read_address_is_what_was_read() {
    let address = RoleAddress::from_str("yeoman@fleet").expect("a qualified address");
    assert_eq!(address.to_text(), "yeoman@fleet");
}

#[test]
fn convoy_addresses_name_the_project_where_there_is_one() {
    assert_eq!(convoy_address("governor", Some("andamento")), "governor@andamento");
    assert_eq!(convoy_address("governor", None), "governor");
    assert_eq!(convoy_disambiguation_address("governor", Some("andamento")), "governor@andamento");
    assert_eq!(convoy_disambiguation_address("governor", None), "governor@");
}

#[test]
fn convoy_role_resolution_can_disambiguate_a_projectless_convoy() {
    let records = vec![identity("convoy-one", Some("inspector"), None, false), identity("convoy-two", Some("inspector"), Some("beta"), false)];
    assert_eq!(
        resolve_local_convoy_name(&records, "inspector"),
        Err("convoy role `inspector` is ambiguous; use one of: inspector@, inspector@beta".to_string())
    );
    assert_eq!(resolve_local_convoy_name(&records, "inspector@"), Ok("convoy-one".to_string()));
    assert_eq!(resolve_local_convoy_name(&records, "inspector@beta"), Ok("convoy-two".to_string()));
}

#[test]
fn convoy_resolution_falls_back_to_a_unique_terminal_generation() {
    let records = vec![identity("convoy-one", Some("inspector"), Some("flotilla"), true)];
    assert_eq!(resolve_local_convoy_name(&records, "inspector@flotilla"), Ok("convoy-one".to_string()));
}

#[test]
fn convoy_resolution_refuses_multiple_terminal_generations() {
    let records =
        vec![identity("convoy-one", Some("inspector"), Some("flotilla"), true), identity("convoy-two", Some("inspector"), Some("flotilla"), true)];
    assert_eq!(
        resolve_local_convoy_name(&records, "inspector@flotilla"),
        Err("convoy address `inspector@flotilla` matches multiple terminal records; use an exact record name: convoy-one, convoy-two"
            .to_string())
    );
}

#[test]
fn convoy_resolution_prefers_an_exact_unlabelled_record_name() {
    let records = vec![identity("pre-identity-record", None, None, true), identity("other", Some("pre-identity-record"), None, false)];
    assert_eq!(resolve_local_convoy_name(&records, "pre-identity-record"), Ok("pre-identity-record".to_string()));
}

#[test]
fn a_record_without_a_role_is_never_found_by_role() {
    let records = vec![identity("inspector", None, Some("flotilla"), true), identity("convoy-one", Some("inspector"), Some("flotilla"), true)];
    assert_eq!(resolve_convoy_candidate_indices(&records, "inspector@flotilla"), Ok(vec![1]));
}

#[test]
fn live_records_hide_terminal_ones() {
    let records = vec![
        identity("first", Some("governor"), Some("fleet"), true),
        identity("second", Some("governor"), Some("fleet"), false),
        identity("third", Some("governor"), Some("fleet"), true),
    ];
    assert_eq!(resolve_convoy_candidate_indices(&records, "governor@fleet"), Ok(vec![1]));
    assert_eq!(resolve_local_convoy_name(&records, "governor"), Ok("second".to_string()));
    assert_eq!(resolve_local_convoy_name(&records, "third"), Ok("third".to_string()));
}

#[test]
fn an_unknown_convoy_address_is_not_found() {
    let records = vec![identity("first", Some("governor"), Some("fleet"), false)];
    assert_eq!(resolve_local_convoy_name(&records, "yeoman@fleet"), Err("no convoy matches `yeoman@fleet`".to_string()));
    assert_eq!(
        resolve_local_convoy_name(&records, "a@b@c"),
        Err("invalid convoy address `a@b@c`: expected role@project".to_string())
    );
}

#[test]
fn generations_start_at_one_and_grow() {
    let project = Some("fleet".to_string());
    assert_eq!(allocate_convoy_generation(&vec![], &project, "worker"), Ok(1));
    let convoys = vec![
        generation(Some("fleet"), "worker", Some(4), 2, Some(ConvoyPhase::Landed)),
        generation(Some("fleet"), "worker", None, 3, Some(ConvoyPhase::Failed)),
        generation(Some("fleet"), "scout", Some(9), 9, Some(ConvoyPhase::Active)),
    ];
    assert_eq!(allocate_convoy_generation(&convoys, &project, "worker"), Ok(5));
}

#[test]
fn a_live_convoy_keeps_its_identity() {
    let project = Some("fleet".to_string());
    let convoys = vec![generation(Some("fleet"), "worker", Some(1), 1, Some(ConvoyPhase::Active))];
    assert_eq!(
        allocate_convoy_generation(&convoys, &project, "worker"),
        Err("live convoy worker@fleet generation 1 already exists".to_string())
    );
    let unreported = vec![generation(Some("fleet"), "worker", Some(1), 1, None)];
    assert!(allocate_convoy_generation(&unreported, &project, "worker").is_err());
}

#[test]
fn projectless_convoys_do_not_share_an_identity_bucket_with_a_project_named_standalone() {
    let convoys = vec![generation(None, "worker", Some(1), 1, None)];
    assert!(allocate_convoy_generation(&convoys, &Some("standalone".to_string()), "worker").is_ok());
    assert!(allocate_convoy_generation(&convoys, &None, "worker").is_err());
}

#[test]
fn generations_run_out_at_the_last_number() {
    let convoys = vec![generation(None, "worker", Some(u64::MAX), 1, Some(ConvoyPhase::Landed))];
    assert_eq!(allocate_convoy_generation(&convoys, &None, "worker"), Err("convoy worker exhausted its generation counter".to_string()));
}

#[test]
fn a_bare_role_is_ambiguous_across_projects() {
    let sources = vec![
        source("convoy-andamento", "governor", Some("andamento"), Some(ConvoyPhase::Active), Some("kiwi")),
        source("convoy-flotilla", "governor", Some("flotilla"), Some(ConvoyPhase::Active), Some("feta")),
    ];
    assert_eq!(
        resolve_live_convoy_record(&sources, "governor", &None),
        Err("governor is ambiguous: governor@andamento, governor@flotilla".to_string())
    );
    assert_eq!(
        resolve_live_convoy_record(&sources, "governor", &Some("andamento".to_string())),
        Ok(Some(LiveConvoyRecord {
            address: RoleAddress { project: "andamento".to_string(), role: "governor".to_string() },
            record_name: "convoy-andamento".to_string(),
            owner_host: "kiwi".to_string(),
        }))
    );
    assert_eq!(
        resolve_live_convoy_record(&sources, "governor@flotilla", &None),
        Ok(Some(LiveConvoyRecord {
            address: RoleAddress { project: "flotilla".to_string(), role: "governor".to_string() },
            record_name: "convoy-flotilla".to_string(),
            owner_host: "feta".to_string(),
        }))
    );
}

#[test]
fn a_live_record_needs_a_project_and_a_reachable_host() {
    let adrift = vec![source("convoy-one", "governor", None, None, Some("kiwi"))];
    assert_eq!(
        resolve_live_convoy_record(&adrift, "governor", &None),
        Err("live convoy convoy-one has no project identity".to_string())
    );
    let unreachable = vec![source("convoy-one", "governor", Some("fleet"), None, None)];
    assert_eq!(
        resolve_live_convoy_record(&unreachable, "governor@fleet", &None),
        Err("owner host for governor@fleet is unreachable".to_string())
    );
}

#[test]
fn only_spelt_out_addresses_must_match_a_live_record() {
    let landed = vec![source("convoy-one", "governor", Some("fleet"), Some(ConvoyPhase::Landed), Some("kiwi"))];
    assert_eq!(resolve_live_convoy_record(&landed, "governor", &None), Ok(None));
    assert_eq!(
        resolve_live_convoy_record(&landed, "governor@fleet", &None),
        Err("no live convoy matches `governor@fleet`".to_string())
    );
    assert_eq!(
        resolve_live_convoy_record(&landed, "governor@", &None),
        Err("invalid role address `governor@`: expected role@project".to_string())
    );
}

#[test]
fn one_record_from_two_sources_is_refused() {
    let records = vec![identity("convoy-one", Some("governor"), None, false), identity("convoy-one", Some("governor"), None, false)];
    assert_eq!(
        resolve_local_convoy_name(&records, "convoy-one"),
        Err("convoy record `convoy-one` is present from multiple sources".to_string())
    );
    let others = vec![identity("a", Some("governor"), Some("fleet"), false), identity("b", Some("governor"), Some("fleet"), false)];
    assert_eq!(
        resolve_local_convoy_name(&others, "governor@fleet"),
        Err("convoy address `governor@fleet` matches multiple records; use an exact record name: a, b".to_string())
    );
}

#[test]
fn a_role_without_a_project_is_counted_on_its_own() {
    let convoy = |project: Option<&str>, phase: Option<ConvoyPhase>| ConvoyGeneration {
        project_ref: project.map(str::to_string),
        role: "worker".to_string(),
        labelled: None,
        generation: 3,
        phase,
    };
    let convoys = vec![convoy(Some("standalone"), None)];
    assert_eq!(allocate_convoy_generation(&convoys, &None, "worker"), Ok(1));
    assert!(allocate_convoy_generation(&convoys, &Some("standalone".to_string()), "worker").is_err());
    let ended = vec![convoy(Some("standalone"), Some(ConvoyPhase::Landed))];
    assert_eq!(allocate_convoy_generation(&ended, &Some("standalone".to_string()), "worker"), Ok(4));
}
