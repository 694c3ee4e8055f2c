use respkv::command::Command;
use respkv::session::{consult, Connection, Incoming, Step};
use respkv::store::Store;

fn serve(connection: &mut Connection, store: &mut Store, request: &[u8]) -> Option<Vec<u8>> {
    match connection.on_read(Incoming::Data(request)) {
        Step::Send(bytes) => Some(bytes),
        Step::Consult(command) => Some(consult(store, command)),
        Step::Skip => None,
        Step::Close => None,
    }
}

fn spin_until(store: &mut Store, reading: u64) {
    while store.now() < reading {
        std::hint::spin_loop();
    }
}

#[test]
fn echo_hello() {
    let mut connection = Connection::open();
    let step = connection.on_read(Incoming::Data(b"*2\r\n$4\r\nECHO\r\n$5\r\nhello\r\n"));
    assert_eq!(step, Step::Send(b"$5\r\nhello\r\n".to_vec()));
    assert!(connection.is_open());
}

#[test]
fn get_missing() {
    let mut connection = Connection::open();
    let mut store = Store::new();
    let step = connection.on_read(Incoming::Data(b"*2\r\n$3\r\nGET\r\n$7\r\nmissing\r\n"));
    assert_eq!(step, Step::Consult(Command::GetKey("missing".to_string())));
    assert_eq!(consult(&mut store, Command::GetKey("missing".to_string())), b"$-1\r\n".to_vec());
    assert!(connection.is_open());
}

#[test]
fn set_with_expiry_then_get_then_wait_then_get() {
    let mut connection = Connection::open();
    let mut store = Store::new();
    let written = store.now();
    let set = b"*5\r\n$3\r\nSET\r\n$1\r\nk\r\n$1\r\nv\r\n$2\r\nPX\r\n$3\r\n100\r\n";
    let get = b"*2\r\n$3\r\nGET\r\n$1\r\nk\r\n";
    assert_eq!(serve(&mut connection, &mut store, set), Some(b"+OK\r\n".to_vec()));
    let reply = serve(&mut connection, &mut store, get);
    if store.now() < written + 100_000_000 {
        assert_eq!(reply, Some(b"$1\r\nv\r\n".to_vec()));
    }
    spin_until(&mut store, written + 151_000_000);
    assert_eq!(serve(&mut connection, &mut store, get), Some(b"$-1\r\n".to_vec()));
    assert_eq!(serve(&mut connection, &mut store, get), Some(b"$-1\r\n".to_vec()));
    assert!(connection.is_open());
}

#[test]
fn set_without_expiry_then_get() {
    let mut connection = Connection::open();
    let mut store = Store::new();
    let set = b"*3\r\n$3\r\nset\r\n$3\r\nkey\r\n$5\r\nvalue\r\n";
    let get = b"*2\r\n$3\r\nget\r\n$3\r\nkey\r\n";
    assert_eq!(serve(&mut connection, &mut store, set), Some(b"+OK\r\n".to_vec()));
    assert_eq!(serve(&mut connection, &mut store, get), Some(b"$5\r\nvalue\r\n".to_vec()));
    assert_eq!(serve(&mut connection, &mut store, get), Some(b"$5\r\nvalue\r\n".to_vec()));
}

#[test]
fn set_clears_an_earlier_expiry() {
    let mut connection = Connection::open();
    let mut store = Store::new();
    let short = b"*5\r\n$3\r\nSET\r\n$1\r\nk\r\n$1\r\na\r\n$2\r\nPX\r\n$1\r\n0\r\n";
    let plain = b"*3\r\n$3\r\nSET\r\n$1\r\nk\r\n$1\r\nb\r\n";
    let get = b"*2\r\n$3\r\nGET\r\n$1\r\nk\r\n";
    assert_eq!(serve(&mut connection, &mut store, short), Some(b"+OK\r\n".to_vec()));
    assert_eq!(serve(&mut connection, &mut store, plain), Some(b"+OK\r\n".to_vec()));
    assert_eq!(serve(&mut connection, &mut store, get), Some(b"$1\r\nb\r\n".to_vec()));
}

#[test]
fn unknown_command_gets_the_fallback() {
    let mut connection = Connection::open();
    let step = connection.on_read(Incoming::Data(b"*1\r\n$4\r\nPING\r\n"));
    assert_eq!(step, Step::Send(b"+PONG\r\n".to_vec()));
    let step = connection.on_read(Incoming::Data(b"*2\r\n$3\r\nDEL\r\n$1\r\nk\r\n"));
    assert_eq!(step, Step::Send(b"+PONG\r\n".to_vec()));
    let step = connection.on_read(Incoming::Data(b"*0\r\n"));
    assert_eq!(step, Step::Send(b"+PONG\r\n".to_vec()));
    assert!(connection.is_open());
}

#[test]
fn short_frames_get_the_fallback() {
    let mut connection = Connection::open();
    let step = connection.on_read(Incoming::Data(b"*1\r\n$4\r\nECHO\r\n"));
    assert_eq!(step, Step::Send(b"+PONG\r\n".to_vec()));
    let step = connection.on_read(Incoming::Data(b"*1\r\n$3\r\nGET\r\n"));
    assert_eq!(step, Step::Send(b"+PONG\r\n".to_vec()));
    let step = connection.on_read(Incoming::Data(b"*2\r\n$3\r\nSET\r\n$1\r\nk\r\n"));
    assert_eq!(step, Step::Send(b"+PONG\r\n".to_vec()));
    assert!(connection.is_open());
}

#[test]
fn unreadable_expiry_is_reported() {
    let mut connection = Connection::open();
    let mut store = Store::new();
    let bad = b"*5\r\n$3\r\nSET\r\n$1\r\nk\r\n$1\r\nv\r\n$2\r\nPX\r\n$4\r\nsoon\r\n";
    let step = connection.on_read(Incoming::Data(bad));
    assert_eq!(
        step,
        Step::Send(b"+ERR value is not an integer or out of range\r\n".to_vec())
    );
    assert!(connection.is_open());
    let get = b"*2\r\n$3\r\nGET\r\n$1\r\nk\r\n";
    assert_eq!(serve(&mut connection, &mut store, get), Some(b"$-1\r\n".to_vec()));
}

#[test]
fn malformed_input_is_skipped() {
    let mut connection = Connection::open();
    assert_eq!(connection.on_read(Incoming::Data(b"hello\r\n")), Step::Skip);
    assert_eq!(connection.on_read(Incoming::Data(b"*2\r\n$4\r\nECHO\r\n$9\r\nhi\r\n")), Step::Skip);
    assert_eq!(connection.on_read(Incoming::Data(b"*1\r\n$1\r\n\xff\r\n")), Step::Skip);
    assert_eq!(connection.on_read(Incoming::Data(b"*")), Step::Skip);
    assert!(connection.is_open());
    let step = connection.on_read(Incoming::Data(b"*2\r\n$4\r\nECHO\r\n$2\r\nhi\r\n"));
    assert_eq!(step, Step::Send(b"$2\r\nhi\r\n".to_vec()));
}

#[test]
fn empty_read_closes() {
    let mut connection = Connection::open();
    assert_eq!(connection.on_read(Incoming::Data(b"")), Step::Close);
    assert!(!connection.is_open());
}

#[test]
fn failed_read_closes() {
    let mut connection = Connection::open();
    assert_eq!(connection.on_read(Incoming::Failed), Step::Close);
    assert!(!connection.is_open());
}

#[test]
fn failed_write_closes() {
    let mut connection = Connection::open();
    connection.on_write(true);
    assert!(connection.is_open());
    connection.on_write(false);
    assert!(!connection.is_open());
    connection.on_write(true);
    assert!(!connection.is_open());
}

#[test]
fn closed_connection_stays_closed() {
    let mut connection = Connection::open();
    connection.on_write(false);
    let step = connection.on_read(Incoming::Data(b"*2\r\n$4\r\nECHO\r\n$5\r\nhello\r\n"));
    assert_eq!(step, Step::Close);
    assert_eq!(connection.on_read(Incoming::Failed), Step::Close);
    assert!(!connection.is_open());
}

#[test]
fn two_connections_share_one_store() {
    let mut first = Connection::open();
    let mut second = Connection::open();
    let mut store = Store::new();
    let set_a = b"*3\r\n$3\r\nSET\r\n$1\r\nk\r\n$1\r\na\r\n";
    let set_b = b"*3\r\n$3\r\nSET\r\n$1\r\nk\r\n$1\r\nb\r\n";
    let get = b"*2\r\n$3\r\nGET\r\n$1\r\nk\r\n";
    assert_eq!(serve(&mut first, &mut store, set_a), Some(b"+OK\r\n".to_vec()));
    assert_eq!(serve(&mut second, &mut store, set_b), Some(b"+OK\r\n".to_vec()));
    assert_eq!(serve(&mut first, &mut store, get), Some(b"$1\r\nb\r\n".to_vec()));
    assert_eq!(serve(&mut second, &mut store, set_b), Some(b"+OK\r\n".to_vec()));
    assert_eq!(serve(&mut first, &mut store, set_a), Some(b"+OK\r\n".to_vec()));
    assert_eq!(serve(&mut second, &mut store, get), Some(b"$1\r\na\r\n".to_vec()));
}
