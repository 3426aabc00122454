use crowdfund::error::ContractError;
use crowdfund::msg::MessageInfo;
use crowdfund::primitive::{
    ExecuteMsg, GetValueResponse, InstantiateMsg, Primitive, PrimitiveRestriction,
};
use crowdfund::primitive_store::PrimitiveStore;

const DEFAULT_KEY: &str = "default";

fn mock_info(sender: &str) -> MessageInfo {
    MessageInfo { sender: sender.to_string(), funds: vec![] }
}

fn proper_initialization(restriction: PrimitiveRestriction) -> (PrimitiveStore, MessageInfo) {
    let info = mock_info("creator");
    let store = PrimitiveStore::instantiate(&info, InstantiateMsg { restriction });
    assert_eq!(restriction, store.restriction());
    assert!(store.all_keys().is_empty());
    (store, info)
}

fn set_value(
    store: &mut PrimitiveStore,
    key: &Option<String>,
    value: &Primitive,
    sender: &str,
) -> Result<(), ContractError> {
    let msg = ExecuteMsg::SetValue { key: key.clone(), value: value.clone() };
    store.execute(&mock_info(sender), msg)
}

fn delete_value(
    store: &mut PrimitiveStore,
    key: &Option<String>,
    sender: &str,
) -> Result<(), ContractError> {
    let msg = ExecuteMsg::DeleteValue { key: key.clone() };
    store.execute(&mock_info(sender), msg)
}

fn query_value(store: &PrimitiveStore, key: &Option<String>) -> Result<GetValueResponse, ContractError> {
    store.query_value(key)
}

#[test]
fn test_instantiation() {
    proper_initialization(PrimitiveRestriction::Private);
}

#[test]
fn test_set_and_update_value_with_key() {
    let (mut store, info) = proper_initialization(PrimitiveRestriction::Private);
    let key = String::from("key");
    let value = Primitive::String("value".to_string());
    set_value(&mut store, &Some(key.clone()), &value, info.sender.as_ref()).unwrap();

    let query_res: GetValueResponse = query_value(&store, &Some(key.clone())).unwrap();

    assert_eq!(GetValueResponse { key: key.clone(), value }, query_res);

    let value = Primitive::String("value2".to_string());
    set_value(&mut store, &Some(key.clone()), &value, info.sender.as_ref()).unwrap();

    let query_res: GetValueResponse = query_value(&store, &Some(key.clone())).unwrap();

    assert_eq!(GetValueResponse { key, value }, query_res);
}

#[test]
fn test_set_and_update_value_without_key() {
    let (mut store, info) = proper_initialization(PrimitiveRestriction::Private);
    let key = None;
    let value = Primitive::String("value".to_string());
    set_value(&mut store, &key, &value, info.sender.as_ref()).unwrap();

    let query_res: GetValueResponse = query_value(&store, &key).unwrap();

    assert_eq!(
        GetValueResponse { key: key.clone().unwrap_or("default".into()), value },
        query_res
    );

    let value = Primitive::String("value2".to_string());
    set_value(&mut store, &key, &value, info.sender.as_ref()).unwrap();

    let query_res: GetValueResponse = query_value(&store, &key).unwrap();

    assert_eq!(GetValueResponse { key: "default".to_string(), value }, query_res);
}

#[test]
fn test_delete_value() {
    let (mut store, info) = proper_initialization(PrimitiveRestriction::Private);
    // Without Key
    let value = Primitive::String("value".to_string());
    set_value(&mut store, &None, &value, info.sender.as_ref()).unwrap();
    delete_value(&mut store, &None, info.sender.as_ref()).unwrap();
    query_value(&store, &None).unwrap_err();

    // With key
    let key = Some("key".to_string());
    set_value(&mut store, &key, &value, info.sender.as_ref()).unwrap();
    delete_value(&mut store, &key, info.sender.as_ref()).unwrap();
    query_value(&store, &key).unwrap_err();
}

#[test]
fn test_restriction_private() {
    let (mut store, info) = proper_initialization(PrimitiveRestriction::Private);

    let key = Some("key".to_string());
    let value = Primitive::String("value".to_string());
    let external_user = "external".to_string();

    // Set Value as owner
    set_value(&mut store, &key, &value, info.sender.as_ref()).unwrap();
    delete_value(&mut store, &key, info.sender.as_ref()).unwrap();
    // This should error, key is deleted
    query_value(&store, &key).unwrap_err();

    // Set Value as external user
    // This should error
    set_value(&mut store, &key, &value, &external_user).unwrap_err();
    // Set a value by owner so we can test delete for it
    set_value(&mut store, &key, &value, info.sender.as_ref()).unwrap();
    // Delete value set by owner by external user
    // This will error
    delete_value(&mut store, &key, &external_user).unwrap_err();

    // Key is still present
    query_value(&store, &key).unwrap();
}

#[test]
fn test_restriction_public() {
    let (mut store, info) = proper_initialization(PrimitiveRestriction::Public);

    let key = Some("key".to_string());
    let value = Primitive::String("value".to_string());
    let external_user = "external".to_string();

    // Set Value as owner
    set_value(&mut store, &key, &value, info.sender.as_ref()).unwrap();
    delete_value(&mut store, &key, info.sender.as_ref()).unwrap();
    // This should error, key is deleted
    query_value(&store, &key).unwrap_err();

    // Set Value as external user
    set_value(&mut store, &key, &value, &external_user).unwrap();
    delete_value(&mut store, &key, &external_user).unwrap();
    // This should error, key is deleted
    query_value(&store, &key).unwrap_err();

    // Set Value as owner
    set_value(&mut store, &key, &value, info.sender.as_ref()).unwrap();
    // Delete the value as external user
    delete_value(&mut store, &key, &external_user).unwrap();
    // This should error, key is deleted
    query_value(&store, &key).unwrap_err();
}

#[test]
fn test_restriction_restricted() {
    let (mut store, info) = proper_initialization(PrimitiveRestriction::Restricted);

    let key = Some("key".to_string());
    let value = Primitive::String("value".to_string());
    let value2 = Primitive::String("value2".to_string());
    let external_user = "external".to_string();
    let external_user2 = "external2".to_string();

    // Set Value as owner
    set_value(&mut store, &key, &value, info.sender.as_ref()).unwrap();
    delete_value(&mut store, &key, info.sender.as_ref()).unwrap();
    // This should error, key is deleted
    query_value(&store, &key).unwrap_err();

    // Set Value as external user
    set_value(&mut store, &key, &value, &external_user).unwrap();
    delete_value(&mut store, &key, &external_user).unwrap();
    // This should error, key is deleted
    query_value(&store, &key).unwrap_err();

    // Set Value as owner and try to delete as external user
    set_value(&mut store, &key, &value, info.sender.as_ref()).unwrap();
    // Try to modify it as external user
    set_value(&mut store, &key, &value2, &external_user).unwrap_err();
    // Delete the value as external user, this should error
    delete_value(&mut store, &key, &external_user).unwrap_err();
    // Key is still present
    query_value(&store, &key).unwrap();

    let key = Some("key2".to_string());
    // Set Value as external user and try to delete as owner
    set_value(&mut store, &key, &value, &external_user).unwrap();
    // Delete the value as external user, this will success as owner has permission to do anything
    delete_value(&mut store, &key, info.sender.as_ref()).unwrap();
    // Key is not present, this will error
    query_value(&store, &key).unwrap_err();

    let key = Some("key3".to_string());
    // Set Value as external user 1 and try to delete as external user 2
    set_value(&mut store, &key, &value, &external_user).unwrap();
    // Delete the value as external user, this will error
    delete_value(&mut store, &key, &external_user2).unwrap_err();
    // Key is present
    query_value(&store, &key).unwrap();
}

#[test]
fn test_query_all_key() {
    let (mut store, info) = proper_initialization(PrimitiveRestriction::Private);

    let keys: Vec<String> = vec!["key1".into(), "key2".into()];
    let value = Primitive::String("value".to_string());
    for key in keys.clone() {
        set_value(&mut store, &Some(key), &value, info.sender.as_ref()).unwrap();
    }

    let res: Vec<String> = store.all_keys();

    assert_eq!(res, keys)
}

#[test]
fn test_query_owner_keys() {
    let (mut store, _) = proper_initialization(PrimitiveRestriction::Restricted);

    let keys: Vec<String> = vec!["1".into(), "2".into()];
    let value = Primitive::String("value".to_string());
    let sender = "sender1".to_string();
    for key in keys.clone() {
        set_value(&mut store, &Some(format!("{sender}-{key}")), &value, &sender).unwrap();
    }

    let sender = "sender2".to_string();
    for key in keys {
        set_value(&mut store, &Some(format!("{sender}-{key}")), &value, &sender).unwrap();
    }

    let res: Vec<String> = store.all_keys();
    assert!(res.len() == 4, "Not all keys added");

    let res: Vec<String> = store.owner_keys("sender1");
    assert!(res.len() == 2, "assertion failed {res:?}", res = res);
    assert_eq!(vec!["sender1-1", "sender1-2"], res);

    let res: Vec<String> = store.owner_keys("sender2");
    assert!(res.len() == 2, "assertion failed {res:?}", res = res);
}

#[test]
fn test_set_object() {
    let (mut store, info) = proper_initialization(PrimitiveRestriction::Private);

    let map = vec![("key".to_string(), Primitive::Bool(true))];

    set_value(&mut store, &None, &Primitive::Object(map.clone()), info.sender.as_ref()).unwrap();

    let query_res: GetValueResponse = query_value(&store, &None).unwrap();

    assert_eq!(
        GetValueResponse { key: DEFAULT_KEY.to_string(), value: Primitive::Object(map.clone()) },
        query_res
    );
}

#[test]
fn a_key_stays_with_who_put_it_there() {
    let (mut store, info) = proper_initialization(PrimitiveRestriction::Restricted);
    let key = Some("key".to_string());
    let value = Primitive::Uint128(1);
    set_value(&mut store, &key, &value, "someone").unwrap();
    // The owner of the store writes over it; the key stays with who put it there.
    set_value(&mut store, &key, &Primitive::Uint128(2), info.sender.as_ref()).unwrap();
    assert_eq!(vec!["key"], store.owner_keys("someone"));
    assert!(store.owner_keys("creator").is_empty());
    assert_eq!(Primitive::Uint128(2), query_value(&store, &key).unwrap().value);
    assert_eq!(Err(ContractError::NotFound), query_value(&store, &None));
    assert_eq!(Ok(()), delete_value(&mut store, &Some("none".to_string()), "anyone"));
}

#[test]
fn only_the_owner_changes_the_restriction() {
    let (mut store, info) = proper_initialization(PrimitiveRestriction::Private);
    let open = ExecuteMsg::UpdateRestriction { restriction: PrimitiveRestriction::Public };
    assert_eq!(Err(ContractError::Unauthorized), store.execute(&mock_info("someone"), open.clone()));
    assert_eq!(PrimitiveRestriction::Private, store.restriction());
    assert_eq!(
        Err(ContractError::Unauthorized),
        set_value(&mut store, &None, &Primitive::Bool(true), "someone")
    );
    assert_eq!(Ok(()), store.execute(&info, open));
    assert_eq!(PrimitiveRestriction::Public, store.restriction());
    assert_eq!(Ok(()), set_value(&mut store, &None, &Primitive::Bool(true), "someone"));
    assert!(store.has_key_permission("someone", "default"));
}
