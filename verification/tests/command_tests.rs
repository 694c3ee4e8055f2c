use respkv::command::Command;
use respkv::reply::Reply;
use respkv::store::Store;

const MS: u64 = 1_000_000;

fn frame(items: &[&str]) -> Vec<String> {
    items.iter().map(|s| s.to_string()).collect()
}

fn set_command(key: &str, value: &str, ttl: Option<u64>) -> Command {
    Command::SetKey { key: key.to_string(), value: value.to_string(), ttl }
}

#[test]
fn reads_echo() {
    assert_eq!(Command::from_frame(&frame(&["ECHO", "hello"])), Command::Echo("hello".to_string()));
    assert_eq!(Command::from_frame(&frame(&["echo", "hello"])), Command::Echo("hello".to_string()));
    assert_eq!(
        Command::from_frame(&frame(&["Echo", "a", "ignored"])),
        Command::Echo("a".to_string())
    );
}

#[test]
fn reads_get() {
    assert_eq!(Command::from_frame(&frame(&["GET", "k"])), Command::GetKey("k".to_string()));
    assert_eq!(Command::from_frame(&frame(&["gEt", "k", "x"])), Command::GetKey("k".to_string()));
}

#[test]
fn reads_set_without_expiry() {
    assert_eq!(Command::from_frame(&frame(&["SET", "k", "v"])), set_command("k", "v", None));
    assert_eq!(Command::from_frame(&frame(&["set", "k", "v"])), set_command("k", "v", None));
}

#[test]
fn reads_set_with_expiry() {
    assert_eq!(
        Command::from_frame(&frame(&["SET", "k", "v", "PX", "100"])),
        set_command("k", "v", Some(100))
    );
    assert_eq!(
        Command::from_frame(&frame(&["SET", "k", "v", "px", "0"])),
        set_command("k", "v", Some(0))
    );
    assert_eq!(
        Command::from_frame(&frame(&["SET", "k", "v", "Px", "18446744073709551615", "more"])),
        set_command("k", "v", Some(u64::MAX))
    );
    assert_eq!(
        Command::from_frame(&frame(&["SET", "k", "v", "PX", "+7"])),
        set_command("k", "v", Some(7))
    );
}

#[test]
fn set_with_option_but_no_number_has_no_expiry() {
    assert_eq!(Command::from_frame(&frame(&["SET", "k", "v", "PX"])), set_command("k", "v", None));
}

#[test]
fn set_with_another_option_has_no_expiry() {
    assert_eq!(
        Command::from_frame(&frame(&["SET", "k", "v", "EX", "100"])),
        set_command("k", "v", None)
    );
    assert_eq!(
        Command::from_frame(&frame(&["SET", "k", "v", "EX", "soon"])),
        set_command("k", "v", None)
    );
}

#[test]
fn set_with_unreadable_expiry_is_refused() {
    assert_eq!(Command::from_frame(&frame(&["SET", "k", "v", "PX", "soon"])), Command::BadExpiry);
    assert_eq!(Command::from_frame(&frame(&["SET", "k", "v", "PX", "-1"])), Command::BadExpiry);
    assert_eq!(Command::from_frame(&frame(&["SET", "k", "v", "PX", ""])), Command::BadExpiry);
    assert_eq!(Command::from_frame(&frame(&["SET", "k", "v", "PX", "1.5"])), Command::BadExpiry);
    assert_eq!(
        Command::from_frame(&frame(&["SET", "k", "v", "PX", "18446744073709551616"])),
        Command::BadExpiry
    );
}

#[test]
fn too_few_arguments_are_unknown() {
    assert_eq!(Command::from_frame(&frame(&[])), Command::Unknown);
    assert_eq!(Command::from_frame(&frame(&["ECHO"])), Command::Unknown);
    assert_eq!(Command::from_frame(&frame(&["GET"])), Command::Unknown);
    assert_eq!(Command::from_frame(&frame(&["SET"])), Command::Unknown);
    assert_eq!(Command::from_frame(&frame(&["SET", "k"])), Command::Unknown);
}

#[test]
fn other_names_are_unknown() {
    assert_eq!(Command::from_frame(&frame(&["PING"])), Command::Unknown);
    assert_eq!(Command::from_frame(&frame(&["DEL", "k"])), Command::Unknown);
    assert_eq!(Command::from_frame(&frame(&["", "k"])), Command::Unknown);
    assert_eq!(Command::from_frame(&frame(&["ECHOO", "k"])), Command::Unknown);
    assert_eq!(Command::from_frame(&frame(&["GE", "k"])), Command::Unknown);
    assert_eq!(Command::from_frame(&frame(&["SETT", "k", "v"])), Command::Unknown);
}

#[test]
fn replies_that_need_no_store() {
    assert_eq!(
        Command::Echo("hi".to_string()).reply_without_store(),
        Ok(Reply::Bulk("hi".to_string()))
    );
    assert_eq!(
        Command::Unknown.reply_without_store(),
        Ok(Reply::Status("PONG".to_string()))
    );
    assert_eq!(
        Command::BadExpiry.reply_without_store(),
        Ok(Reply::Status("ERR value is not an integer or out of range".to_string()))
    );
    assert_eq!(
        Command::GetKey("k".to_string()).reply_without_store(),
        Err(Command::GetKey("k".to_string()))
    );
    assert_eq!(set_command("k", "v", Some(1)).reply_without_store(), Err(set_command("k", "v", Some(1))));
}

#[test]
fn set_then_get_at_given_readings() {
    let mut store = Store::new();
    let reply = set_command("k", "v", Some(100)).execute_at(&mut store, 0);
    assert_eq!(reply, Reply::Status("OK".to_string()));
    let reply = Command::GetKey("k".to_string()).execute_at(&mut store, 0);
    assert_eq!(reply, Reply::Bulk("v".to_string()));
    let reply = Command::GetKey("k".to_string()).execute_at(&mut store, 150 * MS);
    assert_eq!(reply, Reply::Null);
    let reply = Command::GetKey("k".to_string()).execute_at(&mut store, 0);
    assert_eq!(reply, Reply::Null);
}

#[test]
fn get_of_a_missing_key_is_null() {
    let mut store = Store::new();
    assert_eq!(Command::GetKey("missing".to_string()).execute_at(&mut store, 0), Reply::Null);
    assert_eq!(Command::GetKey("missing".to_string()).execute(&mut store), Reply::Null);
}

#[test]
fn commands_without_store_leave_it_alone() {
    let mut store = Store::new();
    store.set_at("k".to_string(), "v".to_string(), None, 0);
    assert_eq!(
        Command::Echo("x".to_string()).execute_at(&mut store, 5),
        Reply::Bulk("x".to_string())
    );
    assert_eq!(Command::Unknown.execute_at(&mut store, 5), Reply::Status("PONG".to_string()));
    assert_eq!(
        Command::BadExpiry.execute(&mut store),
        Reply::Status("ERR value is not an integer or out of range".to_string())
    );
    assert_eq!(store.get_at("k", 5), Some("v".to_string()));
}

#[test]
fn execute_on_the_running_clock() {
    let mut store = Store::new();
    assert_eq!(set_command("k", "v", None).execute(&mut store), Reply::Status("OK".to_string()));
    assert_eq!(Command::GetKey("k".to_string()).execute(&mut store), Reply::Bulk("v".to_string()));
    assert_eq!(set_command("k", "w", Some(0)).execute(&mut store), Reply::Status("OK".to_string()));
    assert_eq!(Command::GetKey("k".to_string()).execute(&mut store), Reply::Null);
}
