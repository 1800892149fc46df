use castore::jsonrender::render_response;
use castore::multipart::{parse_boundary, parse_multipart};
use castore::pathing::Config;
use castore::serve::handle_request;
use castore::store::BlobStore;
use castore::upload::{plan_field, FileObject, UploadError};

const HELLO_DEC: &str = "44242771869517616314382325942197185226158272230923116766941154519814713915236";

fn cfg() -> Config {
    Config::new(b"./data".to_vec(), b"https://assets.example".to_vec())
}

fn decimal_text_of(bytes: &[u8]) -> String {
    let mut s = String::new();
    for b in bytes {
        s.push_str(&b.to_string());
    }
    s
}

fn ring_digest_text(content: &[u8]) -> String {
    let d = ring::digest::digest(&ring::digest::SHA256, content);
    decimal_text_of(d.as_ref())
}

#[test]
fn digest_is_deterministic() {
    let obj = FileObject::new(b"a.txt".to_vec(), b"file".to_vec(), Vec::new());
    let one = obj.file_hash(&b"some content".to_vec());
    let two = obj.file_hash(&b"some content".to_vec());
    assert_eq!(one, two);
}

#[test]
fn digest_matches_sha256_of_hello() {
    let obj = FileObject::new(b"a.txt".to_vec(), b"file".to_vec(), Vec::new());
    let text = obj.file_hash(&b"hello".to_vec());
    assert_eq!(text, HELLO_DEC.as_bytes().to_vec());
    assert_eq!(text, ring_digest_text(b"hello").into_bytes());
}

#[test]
fn digest_of_empty_input_matches_ring() {
    let obj = FileObject::new(b"a.txt".to_vec(), b"file".to_vec(), Vec::new());
    let text = obj.file_hash(&Vec::new());
    assert_eq!(text, ring_digest_text(b"").into_bytes());
    assert!(text.len() >= 32);
}

#[test]
fn derived_path_is_sharded_from_digest_text() {
    let c = cfg();
    let (path, uri) = plan_field(&b"a.txt".to_vec(), &b"hello".to_vec(), &c).unwrap();
    let expected_path = format!("./data/44/24/{}.txt", HELLO_DEC);
    let expected_uri = format!("https://assets.example/44/24/{}.txt", HELLO_DEC);
    assert_eq!(path, expected_path.into_bytes());
    assert_eq!(uri, expected_uri.into_bytes());
    // the shard components are the first two and next two bytes of the
    // digest text, and the stem is the whole digest text
    assert_eq!(&HELLO_DEC[0..2], "44");
    assert_eq!(&HELLO_DEC[2..4], "24");
}

#[test]
fn extension_is_lowercased() {
    let c = cfg();
    let (path, _) = plan_field(&b"A.TXT".to_vec(), &b"hello".to_vec(), &c).unwrap();
    assert!(path.ends_with(b".txt"));
}

#[test]
fn last_extension_wins() {
    let c = cfg();
    let (path, _) = plan_field(&b"x.tar.gz".to_vec(), &b"hello".to_vec(), &c).unwrap();
    assert!(path.ends_with(b".gz"));
}

#[test]
fn missing_extension_is_rejected() {
    let c = cfg();
    assert!(plan_field(&b"noext".to_vec(), &b"hello".to_vec(), &c).is_none());
    assert!(plan_field(&b"trailingdot.".to_vec(), &b"hello".to_vec(), &c).is_none());
    assert!(plan_field(&b".hidden".to_vec(), &b"hello".to_vec(), &c).is_none());
    assert!(plan_field(&b"".to_vec(), &b"hello".to_vec(), &c).is_none());
}

#[test]
fn save_file_reports_missing_extension() {
    let c = cfg();
    let mut st = BlobStore::new();
    let mut obj = FileObject::new(b"noext".to_vec(), b"file".to_vec(), Vec::new());
    let r = obj.save_file(&b"hello".to_vec(), &c, &mut st);
    assert!(matches!(r, Err(UploadError::MissingExtension)));
    assert_eq!(st.count(), 0);
}

#[test]
fn paths_differ_for_different_content() {
    let c = cfg();
    let (p1, _) = plan_field(&b"a.txt".to_vec(), &b"hello".to_vec(), &c).unwrap();
    let (p2, _) = plan_field(&b"a.txt".to_vec(), &b"hullo".to_vec(), &c).unwrap();
    assert_ne!(p1, p2);
}

#[test]
fn paths_differ_for_different_extension() {
    let c = cfg();
    let (p1, _) = plan_field(&b"a.txt".to_vec(), &b"hello".to_vec(), &c).unwrap();
    let (p2, _) = plan_field(&b"a.png".to_vec(), &b"hello".to_vec(), &c).unwrap();
    assert_ne!(p1, p2);
}

#[test]
fn store_write_is_idempotent() {
    let c = cfg();
    let mut st = BlobStore::new();
    let mut obj = FileObject::new(b"a.txt".to_vec(), b"file".to_vec(), Vec::new());
    assert!(obj.save_file(&b"hello".to_vec(), &c, &mut st).is_ok());
    let uri_one = obj.uri.clone();
    let (path, _) = plan_field(&b"a.txt".to_vec(), &b"hello".to_vec(), &c).unwrap();
    assert_eq!(st.count(), 1);
    assert_eq!(st.read(&path), Some(b"hello".to_vec()));

    let mut again = FileObject::new(b"a.txt".to_vec(), b"file".to_vec(), Vec::new());
    assert!(again.save_file(&b"hello".to_vec(), &c, &mut st).is_ok());
    assert_eq!(again.uri, uri_one);
    assert_eq!(st.count(), 1);
    assert_eq!(st.read(&path), Some(b"hello".to_vec()));
}

#[test]
fn boundary_is_parsed_from_content_type() {
    assert_eq!(
        parse_boundary(&b"multipart/form-data; boundary=XyZ".to_vec()),
        Some(b"XyZ".to_vec())
    );
    assert_eq!(
        parse_boundary(&b"multipart/form-data; boundary=\"quoted token\"".to_vec()),
        Some(b"quoted token".to_vec())
    );
    assert_eq!(
        parse_boundary(&b"multipart/form-data; boundary=abc; charset=utf-8".to_vec()),
        Some(b"abc".to_vec())
    );
}

#[test]
fn boundary_is_refused_without_multipart_type() {
    assert_eq!(parse_boundary(&b"text/plain".to_vec()), None);
    assert_eq!(parse_boundary(&b"multipart/form-data".to_vec()), None);
    assert_eq!(parse_boundary(&b"multipart/form-data; boundary=".to_vec()), None);
    assert_eq!(parse_boundary(&b"application/json; boundary=x".to_vec()), None);
}

fn one_part(boundary: &str, name: &str, filename: &str, content: &[u8]) -> Vec<u8> {
    let mut body = Vec::new();
    body.extend_from_slice(format!("\r\nContent-Disposition: form-data; name=\"{}\"; filename=\"{}\"\r\n\r\n", name, filename).as_bytes());
    body.extend_from_slice(content);
    body.extend_from_slice(format!("\r\n--{}", boundary).as_bytes());
    body
}

fn multipart_body(boundary: &str, parts: &[(&str, &str, &[u8])]) -> Vec<u8> {
    let mut body = format!("--{}", boundary).into_bytes();
    for (name, filename, content) in parts {
        body.extend_from_slice(&one_part(boundary, name, filename, content));
    }
    body.extend_from_slice(b"--");
    body
}

#[test]
fn multipart_fields_decode_in_order() {
    let body = multipart_body(
        "B42",
        &[
            ("first", "a.txt", b"alpha"),
            ("second", "b.bin", b"beta"),
            ("third", "c.png", b"\x00\x01\x02"),
        ],
    );
    let fields = parse_multipart(&body, &b"B42".to_vec()).unwrap();
    assert_eq!(fields.len(), 3);
    assert_eq!(fields[0].name, b"first".to_vec());
    assert_eq!(fields[0].filename, b"a.txt".to_vec());
    assert_eq!(fields[0].content, b"alpha".to_vec());
    assert_eq!(fields[1].name, b"second".to_vec());
    assert_eq!(fields[1].filename, b"b.bin".to_vec());
    assert_eq!(fields[1].content, b"beta".to_vec());
    assert_eq!(fields[2].name, b"third".to_vec());
    assert_eq!(fields[2].content, vec![0u8, 1, 2]);
}

#[test]
fn multipart_without_disposition_is_malformed() {
    let body = b"--B\r\nContent-Type: text/plain\r\n\r\nhello\r\n--B--".to_vec();
    assert!(parse_multipart(&body, &b"B".to_vec()).is_none());
    let body = b"--B\r\nContent-Disposition: form-data; name=\"x\"\r\n\r\nhello\r\n--B--".to_vec();
    assert!(parse_multipart(&body, &b"B".to_vec()).is_none());
}

#[test]
fn multipart_with_wrong_boundary_is_malformed() {
    let body = multipart_body("AAA", &[("f", "a.txt", b"hello")]);
    assert!(parse_multipart(&body, &b"BBB".to_vec()).is_none());
}

#[test]
fn rendered_envelope_matches_expected_json() {
    let items = vec![FileObject::new(
        b"a.txt".to_vec(),
        b"file".to_vec(),
        b"https://assets.example/44/24/x.txt".to_vec(),
    )];
    let out = render_response(&items);
    let expected = "{\"msg\":\"ok\",\"result\":[{\"filename\":\"a.txt\",\"name\":\"file\",\"uri\":\"https://assets.example/44/24/x.txt\"}]}";
    assert_eq!(out, expected.as_bytes().to_vec());
}

#[test]
fn rendered_escapes_agree_with_serde_json() {
    let filename = "we\"ird\\na\nme\t\x01.txt";
    let name = "fi\relds\x0c\x08";
    let uri = "plain";
    let items = vec![FileObject::new(
        filename.as_bytes().to_vec(),
        name.as_bytes().to_vec(),
        uri.as_bytes().to_vec(),
    )];
    let out = render_response(&items);

    let mut item = serde_json::Map::new();
    item.insert(
        "filename".to_string(),
        serde_json::Value::String(filename.to_string()),
    );
    item.insert("name".to_string(), serde_json::Value::String(name.to_string()));
    item.insert("uri".to_string(), serde_json::Value::String(uri.to_string()));
    let mut top = serde_json::Map::new();
    top.insert("msg".to_string(), serde_json::Value::String("ok".to_string()));
    top.insert(
        "result".to_string(),
        serde_json::Value::Array(vec![serde_json::Value::Object(item)]),
    );
    let expected = serde_json::to_string(&serde_json::Value::Object(top)).unwrap();
    assert_eq!(String::from_utf8(out).unwrap(), expected);
}

#[test]
fn upload_round_trip_stores_and_reports() {
    let c = cfg();
    let mut st = BlobStore::new();
    let body = multipart_body("XB", &[("file", "a.txt", b"hello")]);
    let ct = b"multipart/form-data; boundary=XB".to_vec();
    let reply = handle_request(
        &b"POST".to_vec(),
        &b"/".to_vec(),
        Some(&ct),
        &body,
        &c,
        &mut st,
    );
    assert_eq!(reply.status, 200);
    let expected = format!(
        "{{\"msg\":\"ok\",\"result\":[{{\"filename\":\"a.txt\",\"name\":\"file\",\"uri\":\"https://assets.example/44/24/{}.txt\"}}]}}",
        HELLO_DEC
    );
    assert_eq!(String::from_utf8(reply.body).unwrap(), expected);
    let path = format!("./data/44/24/{}.txt", HELLO_DEC).into_bytes();
    assert_eq!(st.read(&path), Some(b"hello".to_vec()));
    assert_eq!(st.count(), 1);
}

#[test]
fn second_upload_of_same_content_is_a_noop() {
    let c = cfg();
    let mut st = BlobStore::new();
    let body = multipart_body("XB", &[("file", "a.txt", b"hello")]);
    let ct = b"multipart/form-data; boundary=XB".to_vec();
    let one = handle_request(&b"POST".to_vec(), &b"/".to_vec(), Some(&ct), &body, &c, &mut st);
    let two = handle_request(&b"POST".to_vec(), &b"/".to_vec(), Some(&ct), &body, &c, &mut st);
    assert_eq!(one.status, 200);
    assert_eq!(two.status, 200);
    assert_eq!(one.body, two.body);
    assert_eq!(st.count(), 1);
    let path = format!("./data/44/24/{}.txt", HELLO_DEC).into_bytes();
    assert_eq!(st.read(&path), Some(b"hello".to_vec()));
}

#[test]
fn field_failure_does_not_abort_request() {
    let c = cfg();
    let mut st = BlobStore::new();
    let body = multipart_body("XB", &[("bad", "noext", b"one"), ("good", "b.txt", b"two")]);
    let ct = b"multipart/form-data; boundary=XB".to_vec();
    let reply = handle_request(&b"POST".to_vec(), &b"/".to_vec(), Some(&ct), &body, &c, &mut st);
    assert_eq!(reply.status, 200);
    let text = String::from_utf8(reply.body).unwrap();
    let expected_uri_prefix = "https://assets.example/";
    assert_eq!(text.matches("missing file extension").count(), 1);
    assert_eq!(text.matches(expected_uri_prefix).count(), 1);
    // order preserved: the failed first field stays first
    let bad_at = text.find("\"bad\"").unwrap();
    let good_at = text.find("\"good\"").unwrap();
    assert!(bad_at < good_at);
    assert_eq!(st.count(), 1);
}

#[test]
fn missing_content_type_never_touches_store() {
    let c = cfg();
    let mut st = BlobStore::new();
    let body = multipart_body("XB", &[("file", "a.txt", b"hello")]);
    let reply = handle_request(&b"POST".to_vec(), &b"/".to_vec(), None, &body, &c, &mut st);
    assert_eq!(reply.status, 400);
    assert_eq!(
        reply.body,
        b"Unsupported content type, multipart/form-data supports only!".to_vec()
    );
    assert_eq!(st.count(), 0);
}

#[test]
fn non_multipart_content_type_never_touches_store() {
    let c = cfg();
    let mut st = BlobStore::new();
    let body = multipart_body("XB", &[("file", "a.txt", b"hello")]);
    let ct = b"text/plain".to_vec();
    let reply = handle_request(&b"POST".to_vec(), &b"/".to_vec(), Some(&ct), &body, &c, &mut st);
    assert_eq!(reply.status, 400);
    assert_eq!(st.count(), 0);
}

#[test]
fn malformed_body_fails_whole_request_without_writes() {
    let c = cfg();
    let mut st = BlobStore::new();
    let body = b"--XB\r\nContent-Type: text/plain\r\n\r\nhello\r\n--XB--".to_vec();
    let ct = b"multipart/form-data; boundary=XB".to_vec();
    let reply = handle_request(&b"POST".to_vec(), &b"/".to_vec(), Some(&ct), &body, &c, &mut st);
    assert_eq!(reply.status, 400);
    assert_eq!(reply.body, b"Malformed multipart body!".to_vec());
    assert_eq!(st.count(), 0);
}

#[test]
fn other_routes_get_not_found() {
    let c = cfg();
    let mut st = BlobStore::new();
    let body = Vec::new();
    let reply = handle_request(&b"GET".to_vec(), &b"/".to_vec(), None, &body, &c, &mut st);
    assert_eq!(reply.status, 404);
    assert!(reply.body.is_empty());
    let reply = handle_request(&b"POST".to_vec(), &b"/other".to_vec(), None, &body, &c, &mut st);
    assert_eq!(reply.status, 404);
    assert!(reply.body.is_empty());
    assert_eq!(st.count(), 0);
}

#[test]
fn three_fields_keep_arrival_order() {
    let c = cfg();
    let mut st = BlobStore::new();
    let body = multipart_body(
        "OB",
        &[("f1", "a.txt", b"one"), ("f2", "b.txt", b"two"), ("f3", "c.txt", b"three")],
    );
    let ct = b"multipart/form-data; boundary=OB".to_vec();
    let reply = handle_request(&b"POST".to_vec(), &b"/".to_vec(), Some(&ct), &body, &c, &mut st);
    assert_eq!(reply.status, 200);
    let text = String::from_utf8(reply.body).unwrap();
    let p1 = text.find("\"f1\"").unwrap();
    let p2 = text.find("\"f2\"").unwrap();
    let p3 = text.find("\"f3\"").unwrap();
    assert!(p1 < p2 && p2 < p3);
    assert_eq!(st.count(), 3);
}

#[test]
fn decimal_rendering_concatenates_byte_values() {
    // the SHA-256 of `hello` opens with bytes 0x2c 0xf2 0x4d: 44, 242, 77
    let obj = FileObject::new(b"a.txt".to_vec(), b"f".to_vec(), Vec::new());
    let text = obj.file_hash(&b"hello".to_vec());
    assert!(text.starts_with(b"4424277"));
}
