use vmm::request::{
    parse_get_memory, wants_second_token, Method, ParsedRequest, RequestError, VmmAction,
    HTTP_MAX_PAYLOAD_SIZE,
};

fn parse(tokens: &[&str]) -> Result<ParsedRequest, RequestError> {
    parse_get_memory(&tokens.iter().map(|t| t.to_string()).collect())
}

fn refused(path: &str) -> Result<ParsedRequest, RequestError> {
    Err(RequestError::InvalidPathMethod(path.to_string(), Method::Get))
}

#[test]
fn memory_routes_lead_to_their_actions() {
    let routes: Vec<(&[&str], VmmAction)> = vec![
        (&[], VmmAction::GetMemory),
        (&["mappings"], VmmAction::GetMemoryMappings),
        (&["dirty"], VmmAction::GetMemoryDirty),
        (&["dirty", "reset"], VmmAction::ResetMemoryDirty),
        (&["kvm-dirty"], VmmAction::GetKvmDirty),
        (&["kvm-dirty-writes"], VmmAction::GetKvmDirtyWrites),
        (&["dirty-delta"], VmmAction::GetDirtyDelta),
        (&["dirty-delta-packed"], VmmAction::GetDirtyDeltaPacked { keyframe: false }),
        (&["dirty-delta-packed", "keyframe"], VmmAction::GetDirtyDeltaPacked { keyframe: true }),
    ];
    for (tokens, action) in routes {
        assert_eq!(parse(tokens), Ok(ParsedRequest::new_sync(action)));
    }
}

#[test]
fn unknown_routes_are_refused_by_their_path() {
    assert_eq!(parse(&["nowhere"]), refused("/memory/nowhere"));
    assert_eq!(parse(&[""]), refused("/memory/"));
    assert_eq!(parse(&["dirty", "clean"]), refused("/memory/dirty/..."));
    assert_eq!(
        parse(&["dirty-delta-packed", "other"]),
        refused("/memory/dirty-delta-packed/other")
    );
}

#[test]
fn tokens_behind_the_deciding_ones_are_not_looked_at() {
    assert_eq!(parse(&["mappings", "more"]), parse(&["mappings"]));
    assert_eq!(parse(&["dirty", "reset", "more"]), parse(&["dirty", "reset"]));
    assert_eq!(parse(&["nowhere", "more"]), parse(&["nowhere"]));
}

#[test]
fn payloads_are_limited() {
    assert_eq!(HTTP_MAX_PAYLOAD_SIZE, 51200);
}

#[test]
fn second_token_is_asked_for_below_two_routes_only() {
    let wants = |token: &str| wants_second_token(&Some(token.to_string()));
    assert!(wants("dirty"));
    assert!(wants("dirty-delta-packed"));
    for token in ["", "mappings", "kvm-dirty", "kvm-dirty-writes", "dirty-delta", "nowhere"] {
        assert!(!wants(token));
    }
    assert!(!wants_second_token(&None));
}
