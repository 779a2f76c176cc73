use fastcgi_client::conn::{KeepAlive, Mode, ShortConn};
use fastcgi_client::empty::empty;
use fastcgi_client::error::{ClientError, IoErrorKind};
use fastcgi_client::meta::{
    decode_pairs, BeginRequest, BeginRequestRec, Header, RequestType, Role,
};
use fastcgi_client::stream::{MemoryStream, SliceReader};
use fastcgi_client::{Client, Params, Request};

type Short = Client<MemoryStream, ShortConn>;
type Keep = Client<MemoryStream, KeepAlive>;

fn record(request_type: RequestType, id: u16, content: &[u8]) -> Vec<u8> {
    let mut wire = Vec::new();
    Header::new(request_type, id, content).write_to_stream(&mut wire, content);
    wire
}

fn end(id: u16, app_status: u32, protocol_status: u8) -> Vec<u8> {
    let mut body = app_status.to_be_bytes().to_vec();
    body.push(protocol_status);
    body.extend_from_slice(&[0, 0, 0]);
    record(RequestType::EndRequest, id, &body)
}

fn reply(id: u16, stdout: &[u8]) -> Vec<u8> {
    let mut wire = record(RequestType::Stdout, id, stdout);
    wire.extend(end(id, 0, 0));
    wire
}

fn records_of(wire: &[u8]) -> Vec<(Header, Vec<u8>)> {
    let mut reader = SliceReader::new(wire);
    let mut records = Vec::new();
    while !reader.is_empty() {
        let header = Header::new_from_stream(&mut reader).unwrap();
        let content = header.read_content_from_stream(&mut reader).unwrap();
        records.push((header, content));
    }
    records
}

#[test]
fn modes() {
    assert!(!ShortConn::is_keep_alive());
    assert!(KeepAlive::is_keep_alive());
}

#[test]
fn role_codes() {
    assert_eq!(Role::Responder.to_u16(), 1);
    assert_eq!(Role::Authorizer.to_u16(), 2);
    assert_eq!(Role::Filter.to_u16(), 3);
}

#[test]
fn begin_request_of_a_responder_that_keeps_the_connection() {
    let begin_request = BeginRequest::new(Role::Responder, true);
    assert_eq!(begin_request.role, Role::Responder);
    assert_eq!(begin_request.flags, 1);
    assert_eq!(begin_request.reserved, [0; 5]);
    let content = begin_request.to_content();
    assert_eq!(content, vec![0, 1, 1, 0, 0, 0, 0, 0]);
    assert_eq!(u16::from_be_bytes([content[0], content[1]]), 1);
    assert_eq!(content[2], 1);
}

#[test]
fn begin_request_of_other_roles_and_flags() {
    assert_eq!(
        BeginRequest::new(Role::Responder, false).to_content(),
        vec![0, 1, 0, 0, 0, 0, 0, 0]
    );
    assert_eq!(
        BeginRequest::new(Role::Authorizer, false).to_content(),
        vec![0, 2, 0, 0, 0, 0, 0, 0]
    );
    assert_eq!(
        BeginRequest::new(Role::Filter, true).to_content(),
        vec![0, 3, 1, 0, 0, 0, 0, 0]
    );
}

#[test]
fn begin_request_record() {
    let rec = BeginRequestRec::new(0x0102, Role::Responder, true);
    assert_eq!(rec.header.version, 1);
    assert_eq!(rec.header.request_type, RequestType::BeginRequest);
    assert_eq!(rec.header.request_id, 0x0102);
    assert_eq!(rec.header.content_length, 8);
    assert_eq!(rec.header.padding_length, 0);
    assert_eq!(rec.begin_request.flags, 1);
    assert_eq!(rec.content, vec![0, 1, 1, 0, 0, 0, 0, 0]);
    let mut out = Vec::new();
    rec.write_to_stream(&mut out);
    assert_eq!(out, vec![1, 1, 1, 2, 0, 8, 0, 0, 0, 1, 1, 0, 0, 0, 0, 0]);
}

#[test]
fn request_start_follows_the_mode() {
    let mut out = Vec::new();
    Short::handle_request_start(&mut out, 1);
    assert_eq!(out, vec![1, 1, 0, 1, 0, 8, 0, 0, 0, 1, 0, 0, 0, 0, 0, 0]);
    let mut out = Vec::new();
    Keep::handle_request_start(&mut out, 2);
    assert_eq!(out, vec![1, 1, 0, 2, 0, 8, 0, 0, 0, 1, 1, 0, 0, 0, 0, 0]);
}

#[test]
fn request_params_end_with_one_empty_record() {
    let mut out = Vec::new();
    Short::handle_request_params(&mut out, 1, Params::new().custom("A", "1"));
    assert_eq!(
        out,
        vec![
            1, 4, 0, 1, 0, 4, 4, 0, 1, 1, b'A', b'1', 0, 0, 0, 0, // the pair
            1, 4, 0, 1, 0, 0, 0, 0, // the terminator
        ]
    );
}

#[test]
fn no_params_are_one_empty_record() {
    let mut out = Vec::new();
    Short::handle_request_params(&mut out, 1, Params::new());
    assert_eq!(out, vec![1, 4, 0, 1, 0, 0, 0, 0]);
}

#[test]
fn empty_body_is_exactly_one_empty_stdin_record() {
    let mut out = Vec::new();
    let mut body = SliceReader::new(&[]);
    Short::handle_request_body(&mut out, 1, &mut body);
    assert_eq!(out, vec![1, 5, 0, 1, 0, 0, 0, 0]);
    let records = records_of(&out);
    assert_eq!(records.len(), 1);
    assert_eq!(records[0].0.request_type, RequestType::Stdin);
    assert_eq!(records[0].0.content_length, 0);
}

#[test]
fn body_ends_with_one_empty_record() {
    let mut out = Vec::new();
    let mut body = SliceReader::new(b"p1=3&p2=4");
    Keep::handle_request_body(&mut out, 9, &mut body);
    assert_eq!(
        out,
        vec![
            1, 5, 0, 9, 0, 9, 7, 0, b'p', b'1', b'=', b'3', b'&', b'p', b'2', b'=', b'4', 0, 0,
            0, 0, 0, 0, 0, // the body
            1, 5, 0, 9, 0, 0, 0, 0, // the terminator
        ]
    );
    assert!(body.is_empty());
}

#[test]
fn whole_request_is_begin_params_stdin_in_order() {
    let params = Params::default().request_method("POST").content_length(9);
    let mut out = Vec::new();
    let mut body = SliceReader::new(b"p1=3&p2=4");
    Keep::handle_request(&mut out, 5, params, &mut body);

    let records = records_of(&out);
    let types: Vec<RequestType> = records.iter().map(|(h, _)| h.request_type).collect();
    assert_eq!(
        types,
        vec![
            RequestType::BeginRequest,
            RequestType::Params,
            RequestType::Params,
            RequestType::Stdin,
            RequestType::Stdin,
        ]
    );
    assert!(records.iter().all(|(h, _)| h.request_id == 5 && h.version == 1));
    assert_eq!(records[0].1, vec![0, 1, 1, 0, 0, 0, 0, 0]);
    assert_eq!(
        decode_pairs(&records[1].1).unwrap(),
        vec![
            (b"GATEWAY_INTERFACE".to_vec(), b"FastCGI/1.0".to_vec()),
            (b"SERVER_SOFTWARE".to_vec(), b"fastcgi-client-rs".to_vec()),
            (b"SERVER_PROTOCOL".to_vec(), b"HTTP/1.1".to_vec()),
            (b"REQUEST_METHOD".to_vec(), b"POST".to_vec()),
            (b"CONTENT_LENGTH".to_vec(), b"9".to_vec()),
        ]
    );
    assert!(records[2].1.is_empty());
    assert_eq!(records[3].1, b"p1=3&p2=4");
    assert!(records[4].1.is_empty());
}

#[test]
fn big_params_are_cut_into_records() {
    let value = "v".repeat(70000);
    let mut out = Vec::new();
    Short::handle_request_params(&mut out, 1, Params::new().custom("BIG", &value));
    let records = records_of(&out);
    assert_eq!(records.len(), 3);
    assert_eq!(records[0].1.len(), 65535);
    assert_eq!(records[1].1.len(), 1 + 4 + 3 + 70000 - 65535);
    assert_eq!(records[2].1.len(), 0);
    let mut content = records[0].1.clone();
    content.extend_from_slice(&records[1].1);
    assert_eq!(
        decode_pairs(&content).unwrap(),
        vec![(b"BIG".to_vec(), value.as_bytes().to_vec())]
    );
}

#[test]
fn execute_once_reads_the_response() {
    let stream = MemoryStream::new(reply(1, b"hello"));
    let client = Client::new(stream);
    let request = Request::new(Params::default(), SliceReader::new(b"body"));
    let response = client.execute_once(request).unwrap();
    assert_eq!(response.stdout, Some(b"hello".to_vec()));
    assert_eq!(response.stderr, None);
}

#[test]
fn execute_once_uses_request_id_one() {
    let client = Client::new(MemoryStream::new(reply(2, b"hello")));
    let request = Request::new(Params::default(), SliceReader::new(b""));
    assert_eq!(
        client.execute_once(request).unwrap_err(),
        ClientError::ResponseNotFound { id: 1 }
    );
}

#[test]
fn execute_once_fails_with_the_error_of_the_status() {
    let mut wire = record(RequestType::Stdout, 1, b"partial");
    wire.extend(end(1, 42, 2));
    let client = Client::new(MemoryStream::new(wire));
    let request = Request::new(Params::default(), SliceReader::new(b""));
    assert_eq!(
        client.execute_once(request).unwrap_err(),
        ClientError::EndRequestOverloaded { app_status: 42 }
    );
}

#[test]
fn execute_once_without_a_reply_is_an_unexpected_end() {
    let client = Client::new(MemoryStream::new(Vec::new()));
    let request = Request::new(Params::default(), SliceReader::new(b""));
    assert_eq!(
        client.execute_once(request).unwrap_err(),
        ClientError::Io { kind: IoErrorKind::UnexpectedEof }
    );
}

#[test]
fn keep_alive_serves_one_request_after_the_other() {
    let mut incoming = reply(1, b"one");
    incoming.extend(reply(2, b"two"));
    incoming.extend(reply(3, b"three"));
    let mut client = Client::new_keep_alive(MemoryStream::new(incoming));

    let mut expected_out = Vec::new();
    for (id, expected) in [(1u16, "one"), (2, "two"), (3, "three")] {
        let params = Params::default().request_method("GET");
        let request = Request::new(params, SliceReader::new(b"abc"));
        let response = client.execute(request).unwrap();
        assert_eq!(response.stdout, Some(expected.as_bytes().to_vec()));

        let mut body = SliceReader::new(b"abc");
        Keep::handle_request(
            &mut expected_out,
            id,
            Params::default().request_method("GET"),
            &mut body,
        );
        assert_eq!(client.stream().outgoing, expected_out);
    }
    assert_eq!(client.stream().position, client.stream().incoming.len());
    let stream = client.into_stream();
    let records = records_of(&stream.outgoing);
    let begins: Vec<u16> = records
        .iter()
        .filter(|(h, _)| h.request_type == RequestType::BeginRequest)
        .map(|(h, _)| h.request_id)
        .collect();
    assert_eq!(begins, vec![1, 2, 3]);
}

#[test]
fn keep_alive_gives_the_id_back_after_an_error() {
    let mut incoming = end(1, 5, 1);
    incoming.extend(reply(2, b"next"));
    let mut client = Client::new_keep_alive(MemoryStream::new(incoming));
    let request = Request::new(Params::new(), SliceReader::new(b""));
    assert_eq!(
        client.execute(request).unwrap_err(),
        ClientError::EndRequestCantMpxConn { app_status: 5 }
    );
    let request = Request::new(Params::new(), SliceReader::new(b""));
    assert_eq!(client.execute(request).unwrap().stdout, Some(b"next".to_vec()));

    let mut served = 2usize;
    let mut last = Err(ClientError::RequestIdExhausted);
    while served < 65536 {
        let request = Request::new(Params::new(), SliceReader::new(b""));
        last = client.execute(request).map(|_| ());
        served += 1;
    }
    assert_eq!(last, Err(ClientError::Io { kind: IoErrorKind::UnexpectedEof }));
    let records = records_of(&client.stream().outgoing);
    let begins: Vec<u16> = records
        .iter()
        .filter(|(h, _)| h.request_type == RequestType::BeginRequest)
        .map(|(h, _)| h.request_id)
        .collect();
    assert_eq!(begins.len(), 65536);
    assert_eq!(begins[0], 1);
    assert_eq!(begins[65534], 65535);
    assert_eq!(begins[65535], 1);
}

#[test]
fn request_holds_params_and_body() {
    let mut request = Request::new(Params::new().custom("A", "1"), 7u32);
    assert_eq!(request.params().get("A"), Some("1"));
    assert_eq!(*request.stdin(), 7);
    *request.stdin_mut() = 8;
    assert_eq!(*request.stdin(), 8);
    *request.params_mut() = Params::new().custom("B", "2");
    assert_eq!(request.params().get("A"), None);
    assert_eq!(request.params().get("B"), Some("2"));
    let (params, stdin) = request.into_parts();
    assert_eq!(params.len(), 1);
    assert_eq!(stdin, 8);
}

#[test]
fn memory_stream_keeps_track_of_what_is_read() {
    let mut stream = MemoryStream::new(vec![1, 2, 3, 4, 5]);
    assert_eq!(stream.position, 0);
    assert!(stream.outgoing.is_empty());
    assert_eq!(stream.reader().len(), 5);
    stream.keep_unread(2);
    assert_eq!(stream.position, 3);
    assert_eq!(stream.reader().read(10), &[4, 5]);
    stream.position = 99;
    assert_eq!(stream.reader().len(), 0);
}

#[test]
fn empty_reader_reads_nothing() {
    let mut reader = empty();
    let mut buf = [7u8; 4];
    assert_eq!(reader.read(&mut buf), 0);
    assert_eq!(buf, [7u8; 4]);
    assert_eq!(reader.read(&mut []), 0);
}
