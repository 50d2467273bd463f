use respkv::operations::{is_valid_arity, lookup, OperationResult};
use respkv::repository::Repository;
use respkv::request::Request;

#[test]
fn test_is_valid_arity() {
    assert_eq!(is_valid_arity(2, 2), true);
    assert_eq!(is_valid_arity(-2, 2), true);
    assert_eq!(is_valid_arity(-2, 3), true);

    assert_eq!(is_valid_arity(2, 3), false);
    assert_eq!(is_valid_arity(2, 1), false);
    assert_eq!(is_valid_arity(-2, 1), false);
}

#[test]
fn test_lookup() {
    assert!(lookup("not implemented operation").is_none());
    assert!(lookup("get").unwrap().name == "get");
}

#[test]
fn test_lookup_is_case_insensitive() {
    assert_eq!(lookup("FLUSHALL").unwrap().name, "flushall");
    assert_eq!(lookup("GeT").unwrap().name, "get");
    assert_eq!(lookup("ExpIre").unwrap().arity, 3);
}

#[test]
fn test_execute_rejects_short_arity_without_touching_store() {
    let mut repo = Repository::new();
    let op = lookup("get").unwrap();
    let req = Request::new(vec!["GET".to_string()]);
    let res = op.execute(&mut repo, &req, 0);
    assert_eq!(
        res,
        OperationResult::Error("wrong number of arguments".to_string())
    );
    assert_eq!(repo.store_len(), 0);
    assert_eq!(repo.expires_len(), 0);
}

#[test]
fn test_execute_rejects_short_variadic_arity() {
    let mut repo = Repository::new();
    let op = lookup("hset").unwrap();
    let req = Request::new(vec![
        "HSET".to_string(),
        "h".to_string(),
        "f".to_string(),
    ]);
    let res = op.execute(&mut repo, &req, 0);
    assert_eq!(
        res,
        OperationResult::Error("wrong number of arguments".to_string())
    );
    assert_eq!(repo.store_len(), 0);
}

#[test]
fn test_hset_rejects_odd_pair_count() {
    let mut repo = Repository::new();
    let op = lookup("hset").unwrap();
    let req = Request::new(vec![
        "HSET".to_string(),
        "h".to_string(),
        "f".to_string(),
        "v".to_string(),
        "g".to_string(),
    ]);
    let res = op.execute(&mut repo, &req, 0);
    assert_eq!(
        res,
        OperationResult::Error("wrong number of arguments".to_string())
    );
    assert_eq!(repo.store_len(), 0);
}

#[test]
fn test_set_uses_first_two_arguments_only() {
    let mut repo = Repository::new();
    let op = lookup("set").unwrap();
    let req = Request::new(vec![
        "SET".to_string(),
        "x".to_string(),
        "abc".to_string(),
        "ignored".to_string(),
    ]);
    assert_eq!(op.execute(&mut repo, &req, 0), OperationResult::Okay);
    let get = lookup("get").unwrap();
    let req2 = Request::new(vec!["GET".to_string(), "x".to_string()]);
    assert_eq!(
        get.execute(&mut repo, &req2, 0),
        OperationResult::StringRes("abc".to_string())
    );
}

#[test]
fn test_hset_merges_and_last_pair_wins() {
    let mut repo = Repository::new();
    let hset = lookup("hset").unwrap();
    let hget = lookup("hget").unwrap();
    let req = Request::new(vec![
        "HSET".to_string(),
        "h".to_string(),
        "f".to_string(),
        "1".to_string(),
        "f".to_string(),
        "2".to_string(),
    ]);
    assert_eq!(hset.execute(&mut repo, &req, 0), OperationResult::Nil);
    let req2 = Request::new(vec!["HGET".to_string(), "h".to_string(), "f".to_string()]);
    assert_eq!(
        hget.execute(&mut repo, &req2, 0),
        OperationResult::StringRes("2".to_string())
    );
    let req3 = Request::new(vec![
        "HSET".to_string(),
        "h".to_string(),
        "g".to_string(),
        "3".to_string(),
    ]);
    assert_eq!(hset.execute(&mut repo, &req3, 0), OperationResult::Nil);
    assert_eq!(
        hget.execute(&mut repo, &req2, 0),
        OperationResult::StringRes("2".to_string())
    );
    let req4 = Request::new(vec!["HGET".to_string(), "h".to_string(), "g".to_string()]);
    assert_eq!(
        hget.execute(&mut repo, &req4, 0),
        OperationResult::StringRes("3".to_string())
    );
}

#[test]
fn test_expire_semantics() {
    let mut repo = Repository::new();
    let set = lookup("set").unwrap();
    let expire = lookup("expire").unwrap();
    let get = lookup("get").unwrap();

    let missing = Request::new(vec![
        "EXPIRE".to_string(),
        "missing".to_string(),
        "10".to_string(),
    ]);
    assert_eq!(expire.execute(&mut repo, &missing, 0), OperationResult::Int(0));
    assert_eq!(repo.store_len(), 0);
    assert_eq!(repo.expires_len(), 0);

    let set_req = Request::new(vec![
        "SET".to_string(),
        "k".to_string(),
        "v".to_string(),
    ]);
    set.execute(&mut repo, &set_req, 0);

    let zero = Request::new(vec!["EXPIRE".to_string(), "k".to_string(), "0".to_string()]);
    assert_eq!(expire.execute(&mut repo, &zero, 5), OperationResult::Int(1));
    let get_req = Request::new(vec!["GET".to_string(), "k".to_string()]);
    assert_eq!(get.execute(&mut repo, &get_req, 5), OperationResult::Nil);

    set.execute(&mut repo, &set_req, 0);
    let negative = Request::new(vec![
        "EXPIRE".to_string(),
        "k".to_string(),
        "-5".to_string(),
    ]);
    assert_eq!(expire.execute(&mut repo, &negative, 5), OperationResult::Int(1));
    assert_eq!(get.execute(&mut repo, &get_req, 5), OperationResult::Nil);

    set.execute(&mut repo, &set_req, 0);
    let bad = Request::new(vec![
        "EXPIRE".to_string(),
        "k".to_string(),
        "soon".to_string(),
    ]);
    assert_eq!(
        expire.execute(&mut repo, &bad, 5),
        OperationResult::Error("value is not an integer or out of range".to_string())
    );
}
