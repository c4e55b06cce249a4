use resp_kv::config::Config as FileConfig;
use resp_kv::utils::{build_resp_array, build_resp_string, get_array, get_bulk_string};

#[test]
fn build_resp_string_is_a_bulk_or_nil() {
    assert_eq!(build_resp_string(""), b"$-1\r\n".to_vec());
    assert_eq!(build_resp_string("PONG"), b"$4\r\nPONG\r\n".to_vec());
}

#[test]
fn build_resp_array_splits_on_spaces() {
    assert_eq!(build_resp_array("PING"), b"*1\r\n$4\r\nPING\r\n".to_vec());
    assert_eq!(
        build_resp_array("REPLCONF listening-port 6380"),
        b"*3\r\n$8\r\nREPLCONF\r\n$14\r\nlistening-port\r\n$4\r\n6380\r\n".to_vec()
    );
    // An empty word renders as the nil element, as the string builder does.
    assert_eq!(build_resp_array("a  b"), b"*3\r\n$1\r\na\r\n$-1\r\n$1\r\nb\r\n".to_vec());
}

#[test]
fn the_append_style_builders_extend_a_buffer_in_place() {
    let mut buffer: Vec<u8> = b"head:".to_vec();
    get_bulk_string(&mut buffer, &b"hi".to_vec());
    assert_eq!(buffer, b"head:$2\r\nhi\r\n".to_vec());

    let mut buffer: Vec<u8> = Vec::new();
    get_array(&mut buffer, &vec![b"GET".to_vec(), b"k".to_vec()]);
    assert_eq!(buffer, b"*2\r\n$3\r\nGET\r\n$1\r\nk\r\n".to_vec());
}

#[test]
fn the_file_settings_answer_by_name() {
    let mut config = FileConfig::new();
    assert_eq!(config.get("dir"), None);
    config.set_dir("/tmp/data".to_string());
    config.set_dbfilename("dump.rdb".to_string());
    assert_eq!(config.get("dir"), Some("/tmp/data".to_string()));
    assert_eq!(config.get("dbfilename"), Some("dump.rdb".to_string()));
    assert_eq!(config.get("port"), None);
}
