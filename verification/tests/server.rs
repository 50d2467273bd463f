use respkv::repository::Repository;
use respkv::server::handle_message;

#[test]
fn test_scenario_get_on_fresh_store_is_nil() {
    let mut repo = Repository::new();
    let reply = handle_message("*2\r\n$3\r\nGET\r\n$1\r\nx\r\n", &mut repo, 0);
    assert_eq!(reply, "$-1\r\n");
}

#[test]
fn test_scenario_set_then_get() {
    let mut repo = Repository::new();
    let reply = handle_message("*3\r\n$3\r\nSET\r\n$1\r\nx\r\n$3\r\nabc\r\n", &mut repo, 0);
    assert_eq!(reply, "+OK\r\n");
    let reply = handle_message("*2\r\n$3\r\nGET\r\n$1\r\nx\r\n", &mut repo, 0);
    assert_eq!(reply, "$3\r\nabc\r\n");
}

#[test]
fn test_scenario_hset_then_hget() {
    let mut repo = Repository::new();
    let reply = handle_message(
        "*4\r\n$4\r\nHSET\r\n$1\r\nh\r\n$1\r\nf\r\n$1\r\nv\r\n",
        &mut repo,
        0,
    );
    assert_eq!(reply, "$-1\r\n");
    let reply = handle_message("*3\r\n$4\r\nHGET\r\n$1\r\nh\r\n$1\r\nf\r\n", &mut repo, 0);
    assert_eq!(reply, "$1\r\nv\r\n");
}

#[test]
fn test_scenario_flushall_clears_keys() {
    let mut repo = Repository::new();
    handle_message("*3\r\n$3\r\nSET\r\n$1\r\nx\r\n$3\r\nabc\r\n", &mut repo, 0);
    let reply = handle_message("*1\r\n$8\r\nFLUSHALL\r\n", &mut repo, 0);
    assert_eq!(reply, "+OK\r\n");
    let reply = handle_message("*2\r\n$3\r\nGET\r\n$1\r\nx\r\n", &mut repo, 0);
    assert_eq!(reply, "$-1\r\n");
}

#[test]
fn test_scenario_non_array_is_malformed_request() {
    let mut repo = Repository::new();
    let reply = handle_message("+bad\r\n", &mut repo, 0);
    assert_eq!(reply, "-Malformed Request\r\n");
}

#[test]
fn test_unknown_command_reply() {
    let mut repo = Repository::new();
    let reply = handle_message("*1\r\n$4\r\nPING\r\n", &mut repo, 0);
    assert_eq!(reply, "-Not implemented\r\n");
}

#[test]
fn test_protocol_error_reply() {
    let mut repo = Repository::new();
    let reply = handle_message("?x\r\n", &mut repo, 0);
    assert_eq!(reply, "-Failed to parse request\r\n");
}

#[test]
fn test_empty_buffer_reply() {
    let mut repo = Repository::new();
    let reply = handle_message("", &mut repo, 0);
    assert_eq!(reply, "-Empty message\r\n");
}

#[test]
fn test_incomplete_buffer_reply() {
    let mut repo = Repository::new();
    let reply = handle_message("*2\r\n$3\r\nGET\r\n", &mut repo, 0);
    assert_eq!(reply, "-Empty message\r\n");
}

#[test]
fn test_wrong_arity_reply() {
    let mut repo = Repository::new();
    let reply = handle_message("*2\r\n$6\r\nEXPIRE\r\n$1\r\nx\r\n", &mut repo, 0);
    assert_eq!(reply, "-wrong number of arguments\r\n");
    assert_eq!(repo.store_len(), 0);
    assert_eq!(repo.expires_len(), 0);
}

#[test]
fn test_expiration_scenarios() {
    let mut repo = Repository::new();
    handle_message("*3\r\n$3\r\nSET\r\n$1\r\nk\r\n$1\r\nv\r\n", &mut repo, 0);
    let reply = handle_message("*3\r\n$6\r\nEXPIRE\r\n$1\r\nk\r\n$1\r\n0\r\n", &mut repo, 0);
    assert_eq!(reply, ":1\r\n");
    let reply = handle_message("*2\r\n$3\r\nGET\r\n$1\r\nk\r\n", &mut repo, 0);
    assert_eq!(reply, "$-1\r\n");

    handle_message("*3\r\n$3\r\nSET\r\n$1\r\nk\r\n$1\r\nv\r\n", &mut repo, 0);
    let reply = handle_message(
        "*3\r\n$6\r\nEXPIRE\r\n$1\r\nk\r\n$2\r\n-5\r\n",
        &mut repo,
        0,
    );
    assert_eq!(reply, ":1\r\n");
    let reply = handle_message("*2\r\n$3\r\nGET\r\n$1\r\nk\r\n", &mut repo, 0);
    assert_eq!(reply, "$-1\r\n");

    let reply = handle_message(
        "*3\r\n$6\r\nEXPIRE\r\n$7\r\nmissing\r\n$2\r\n10\r\n",
        &mut repo,
        0,
    );
    assert_eq!(reply, ":0\r\n");
    assert_eq!(repo.store_len(), 0);
    assert_eq!(repo.expires_len(), 0);
}

#[test]
fn test_lazy_eviction_scenario() {
    let mut repo = Repository::new();
    handle_message("*3\r\n$3\r\nSET\r\n$1\r\nk\r\n$1\r\nv\r\n", &mut repo, 0);
    let reply = handle_message("*3\r\n$6\r\nEXPIRE\r\n$1\r\nk\r\n$1\r\n1\r\n", &mut repo, 0);
    assert_eq!(reply, ":1\r\n");
    let reply = handle_message("*2\r\n$3\r\nGET\r\n$1\r\nk\r\n", &mut repo, 5);
    assert_eq!(reply, "$-1\r\n");
    assert_eq!(repo.store_len(), 0);
    assert_eq!(repo.expires_len(), 0);
}

#[test]
fn test_type_confusion_scenario() {
    let mut repo = Repository::new();
    handle_message("*3\r\n$3\r\nSET\r\n$1\r\nk\r\n$1\r\nv\r\n", &mut repo, 0);
    let reply = handle_message("*3\r\n$4\r\nHGET\r\n$1\r\nk\r\n$1\r\nf\r\n", &mut repo, 0);
    assert_eq!(reply, "-wrongtype\r\n");
    let reply = handle_message(
        "*4\r\n$4\r\nHSET\r\n$1\r\nk\r\n$1\r\nf\r\n$1\r\nv\r\n",
        &mut repo,
        0,
    );
    assert_eq!(reply, "$-1\r\n");
    let reply = handle_message("*2\r\n$3\r\nGET\r\n$1\r\nk\r\n", &mut repo, 0);
    assert_eq!(reply, "-wrongtype\r\n");
}

#[test]
fn test_expire_bad_seconds_reply() {
    let mut repo = Repository::new();
    handle_message("*3\r\n$3\r\nSET\r\n$1\r\nx\r\n$1\r\ny\r\n", &mut repo, 0);
    let reply = handle_message(
        "*3\r\n$6\r\nEXPIRE\r\n$1\r\nx\r\n$4\r\nsoon\r\n",
        &mut repo,
        0,
    );
    assert_eq!(reply, "-value is not an integer or out of range\r\n");
}

#[test]
fn test_commands_are_case_insensitive() {
    let mut repo = Repository::new();
    let reply = handle_message("*3\r\n$3\r\nSeT\r\n$1\r\nx\r\n$1\r\ny\r\n", &mut repo, 0);
    assert_eq!(reply, "+OK\r\n");
    let reply = handle_message("*2\r\n$3\r\ngEt\r\n$1\r\nx\r\n", &mut repo, 0);
    assert_eq!(reply, "$1\r\ny\r\n");
}

#[test]
fn test_keys_are_case_sensitive() {
    let mut repo = Repository::new();
    handle_message("*3\r\n$3\r\nSET\r\n$1\r\nx\r\n$1\r\ny\r\n", &mut repo, 0);
    let reply = handle_message("*2\r\n$3\r\nGET\r\n$1\r\nX\r\n", &mut repo, 0);
    assert_eq!(reply, "$-1\r\n");
}

#[test]
fn test_command_returns_ok() {
    let mut repo = Repository::new();
    let reply = handle_message("*1\r\n$7\r\nCOMMAND\r\n", &mut repo, 0);
    assert_eq!(reply, "+OK\r\n");
}

#[test]
fn test_empty_array_is_malformed_request() {
    let mut repo = Repository::new();
    let reply = handle_message("*0\r\n", &mut repo, 0);
    assert_eq!(reply, "-Malformed Request\r\n");
}

#[test]
fn test_non_string_element_is_malformed_request() {
    let mut repo = Repository::new();
    let reply = handle_message("*2\r\n$3\r\nGET\r\n:5\r\n", &mut repo, 0);
    assert_eq!(reply, "-Malformed Request\r\n");
}

#[test]
fn test_set_preserves_existing_ttl() {
    let mut repo = Repository::new();
    handle_message("*3\r\n$3\r\nSET\r\n$1\r\nk\r\n$1\r\nv\r\n", &mut repo, 0);
    handle_message("*3\r\n$6\r\nEXPIRE\r\n$1\r\nk\r\n$1\r\n1\r\n", &mut repo, 0);
    let reply = handle_message("*3\r\n$3\r\nSET\r\n$1\r\nk\r\n$1\r\nw\r\n", &mut repo, 0);
    assert_eq!(reply, "+OK\r\n");
    let reply = handle_message("*2\r\n$3\r\nGET\r\n$1\r\nk\r\n", &mut repo, 5);
    assert_eq!(reply, "$-1\r\n");
}

#[test]
fn test_hget_missing_field_is_nil() {
    let mut repo = Repository::new();
    handle_message(
        "*4\r\n$4\r\nHSET\r\n$1\r\nh\r\n$1\r\nf\r\n$1\r\nv\r\n",
        &mut repo,
        0,
    );
    let reply = handle_message("*3\r\n$4\r\nHGET\r\n$1\r\nh\r\n$1\r\ng\r\n", &mut repo, 0);
    assert_eq!(reply, "$-1\r\n");
}

#[test]
fn test_hset_replaces_scalar_with_fresh_hash() {
    let mut repo = Repository::new();
    handle_message("*3\r\n$3\r\nSET\r\n$1\r\nk\r\n$1\r\nv\r\n", &mut repo, 0);
    handle_message(
        "*4\r\n$4\r\nHSET\r\n$1\r\nk\r\n$1\r\nf\r\n$1\r\nw\r\n",
        &mut repo,
        0,
    );
    let reply = handle_message("*3\r\n$4\r\nHGET\r\n$1\r\nk\r\n$1\r\nf\r\n", &mut repo, 0);
    assert_eq!(reply, "$1\r\nw\r\n");
}
