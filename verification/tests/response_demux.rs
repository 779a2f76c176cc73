use fastcgi_client::error::{ClientError, IoErrorKind};
use fastcgi_client::meta::{EndRequestRec, Header, ProtocolStatus, RequestType};
use fastcgi_client::response::{handle_response, Progress, ResponseAccumulator};
use fastcgi_client::stream::SliceReader;
use fastcgi_client::Response;

fn record(request_type: RequestType, id: u16, content: &[u8]) -> Vec<u8> {
    let mut wire = Vec::new();
    Header::new(request_type, id, content).write_to_stream(&mut wire, content);
    wire
}

fn end_body(app_status: u32, protocol_status: u8) -> Vec<u8> {
    let mut body = app_status.to_be_bytes().to_vec();
    body.push(protocol_status);
    body.extend_from_slice(&[0, 0, 0]);
    body
}

fn end(id: u16, app_status: u32, protocol_status: u8) -> Vec<u8> {
    record(RequestType::EndRequest, id, &end_body(app_status, protocol_status))
}

fn read(wire: &[u8], id: u16) -> Result<Response, ClientError> {
    let mut reader = SliceReader::new(wire);
    handle_response(&mut reader, id)
}

#[test]
fn interleaved_output_is_joined_in_order() {
    let mut wire = Vec::new();
    wire.extend(record(RequestType::Stdout, 1, b"Content-type: text/html\r\n\r\n"));
    wire.extend(record(RequestType::Stderr, 1, b"PHP message: "));
    wire.extend(record(RequestType::Stdout, 1, b"12"));
    wire.extend(record(RequestType::Stderr, 1, b"warning"));
    wire.extend(record(RequestType::Stdout, 1, b"34"));
    wire.extend(end(1, 0, 0));

    let response = read(&wire, 1).unwrap();
    assert_eq!(
        response.stdout,
        Some(b"Content-type: text/html\r\n\r\n1234".to_vec())
    );
    assert_eq!(response.stderr, Some(b"PHP message: warning".to_vec()));
}

#[test]
fn reading_stops_after_the_end_of_the_request() {
    let mut wire = Vec::new();
    wire.extend(record(RequestType::Stdout, 1, b"first"));
    wire.extend(end(1, 0, 0));
    let first_len = wire.len();
    wire.extend(record(RequestType::Stdout, 2, b"second"));
    wire.extend(end(2, 0, 0));

    let mut reader = SliceReader::new(&wire);
    let response = handle_response(&mut reader, 1).unwrap();
    assert_eq!(response.stdout, Some(b"first".to_vec()));
    assert_eq!(reader.len(), wire.len() - first_len);
    let response = handle_response(&mut reader, 2).unwrap();
    assert_eq!(response.stdout, Some(b"second".to_vec()));
    assert!(reader.is_empty());
}

#[test]
fn big_output_over_many_records() {
    let chunk: Vec<u8> = (0..65535usize).map(|i| (i % 256) as u8).collect();
    let mut wire = Vec::new();
    let mut expected = Vec::new();
    for _ in 0..5 {
        wire.extend(record(RequestType::Stdout, 1, &chunk));
        expected.extend_from_slice(&chunk);
    }
    wire.extend(end(1, 0, 0));
    let response = read(&wire, 1).unwrap();
    assert_eq!(response.stdout, Some(expected));
    assert_eq!(response.stderr, None);
}

#[test]
fn no_output_is_absent_not_empty() {
    let response = read(&end(1, 0, 0), 1).unwrap();
    assert_eq!(response.stdout, None);
    assert_eq!(response.stderr, None);
}

#[test]
fn empty_output_records_leave_the_output_absent() {
    let mut wire = Vec::new();
    wire.extend(record(RequestType::Stdout, 1, b""));
    wire.extend(record(RequestType::Stderr, 1, b""));
    wire.extend(record(RequestType::Stderr, 1, b"e"));
    wire.extend(record(RequestType::Stdout, 1, b""));
    wire.extend(end(1, 0, 0));
    let response = read(&wire, 1).unwrap();
    assert_eq!(response.stdout, None);
    assert_eq!(response.stderr, Some(b"e".to_vec()));
}

#[test]
fn application_status_does_not_decide_success() {
    let mut wire = record(RequestType::Stdout, 1, b"out");
    wire.extend(end(1, 255, 0));
    let response = read(&wire, 1).unwrap();
    assert_eq!(response.stdout, Some(b"out".to_vec()));
}

#[test]
fn overloaded_is_an_error_with_the_application_status() {
    let mut wire = record(RequestType::Stdout, 1, b"partial output");
    wire.extend(end(1, 42, 2));
    assert_eq!(
        read(&wire, 1).unwrap_err(),
        ClientError::EndRequestOverloaded { app_status: 42 }
    );
}

#[test]
fn each_protocol_status_has_its_error() {
    assert_eq!(
        read(&end(1, 7, 1), 1).unwrap_err(),
        ClientError::EndRequestCantMpxConn { app_status: 7 }
    );
    assert_eq!(
        read(&end(1, 0xdead_beef, 2), 1).unwrap_err(),
        ClientError::EndRequestOverloaded { app_status: 0xdead_beef }
    );
    assert_eq!(
        read(&end(1, 9, 3), 1).unwrap_err(),
        ClientError::EndRequestUnknownRole { app_status: 9 }
    );
    assert_eq!(
        read(&end(1, 9, 4), 1).unwrap_err(),
        ClientError::EndRequestUnknownRole { app_status: 9 }
    );
    assert_eq!(
        read(&end(1, u32::MAX, 255), 1).unwrap_err(),
        ClientError::EndRequestUnknownRole { app_status: u32::MAX }
    );
}

#[test]
fn record_of_another_request_is_a_mismatch() {
    let mut wire = record(RequestType::Stdout, 1, b"mine");
    wire.extend(record(RequestType::Stdout, 2, b"not mine"));
    wire.extend(end(1, 0, 0));
    assert_eq!(read(&wire, 1).unwrap_err(), ClientError::ResponseNotFound { id: 1 });
    assert_eq!(read(&end(2, 0, 0), 1).unwrap_err(), ClientError::ResponseNotFound { id: 1 });
    assert_eq!(read(&end(1, 0, 0), 513).unwrap_err(), ClientError::ResponseNotFound { id: 513 });
}

#[test]
fn mismatch_is_told_from_the_header_alone() {
    let wire = [1u8, 6, 0, 2, 0xff, 0xff, 0, 0];
    let mut reader = SliceReader::new(&wire);
    assert_eq!(
        handle_response(&mut reader, 1).unwrap_err(),
        ClientError::ResponseNotFound { id: 1 }
    );
    assert!(reader.is_empty());
}

#[test]
fn records_that_a_server_never_sends_are_rejected() {
    for request_type in [
        RequestType::BeginRequest,
        RequestType::AbortRequest,
        RequestType::Params,
        RequestType::Stdin,
        RequestType::Data,
        RequestType::GetValues,
        RequestType::GetValuesResult,
        RequestType::UnknownType,
    ] {
        let mut wire = record(RequestType::Stdout, 1, b"before");
        wire.extend(record(request_type, 1, b"payload"));
        wire.extend(end(1, 0, 0));
        assert_eq!(
            read(&wire, 1).unwrap_err(),
            ClientError::UnknownRequestType { request_type }
        );
    }
}

#[test]
fn undefined_type_tag_is_rejected_as_unknown() {
    let wire = [1u8, 77, 0, 1, 0, 0, 0, 0];
    assert_eq!(
        read(&wire, 1).unwrap_err(),
        ClientError::UnknownRequestType { request_type: RequestType::UnknownType }
    );
}

#[test]
fn mismatch_is_checked_before_the_type() {
    let wire = record(RequestType::Params, 2, b"");
    assert_eq!(read(&wire, 1).unwrap_err(), ClientError::ResponseNotFound { id: 1 });
}

#[test]
fn stream_that_ends_early_is_an_unexpected_end() {
    let eof = ClientError::Io { kind: IoErrorKind::UnexpectedEof };
    assert_eq!(read(&[], 1).unwrap_err(), eof);
    let mut wire = record(RequestType::Stdout, 1, b"hello");
    assert_eq!(read(&wire, 1).unwrap_err(), eof);
    wire.extend(end(1, 0, 0));
    for cut in 0..wire.len() {
        assert_eq!(read(&wire[..cut], 1).unwrap_err(), eof);
    }
    assert!(read(&wire, 1).is_ok());
}

#[test]
fn end_of_request_with_a_short_body_is_invalid() {
    let invalid = ClientError::Io { kind: IoErrorKind::InvalidData };
    for len in 0..8usize {
        let body = vec![0u8; len];
        let wire = record(RequestType::EndRequest, 1, &body);
        assert_eq!(read(&wire, 1).unwrap_err(), invalid);
    }
}

#[test]
fn end_of_request_with_a_longer_body_uses_its_first_eight_octets() {
    let mut body = end_body(3, 2);
    body.extend_from_slice(b"more");
    let wire = record(RequestType::EndRequest, 1, &body);
    assert_eq!(
        read(&wire, 1).unwrap_err(),
        ClientError::EndRequestOverloaded { app_status: 3 }
    );
    let mut body = end_body(3, 0);
    body.extend_from_slice(b"more");
    let wire = record(RequestType::EndRequest, 1, &body);
    assert!(read(&wire, 1).is_ok());
}

#[test]
fn protocol_status_codes() {
    assert_eq!(ProtocolStatus::from_u8(0), ProtocolStatus::RequestComplete);
    assert_eq!(ProtocolStatus::from_u8(1), ProtocolStatus::CantMpxConn);
    assert_eq!(ProtocolStatus::from_u8(2), ProtocolStatus::Overloaded);
    assert_eq!(ProtocolStatus::from_u8(3), ProtocolStatus::UnknownRole);
    assert_eq!(ProtocolStatus::from_u8(4), ProtocolStatus::UnknownRole);
    assert_eq!(ProtocolStatus::from_u8(255), ProtocolStatus::UnknownRole);
}

#[test]
fn protocol_status_as_a_result() {
    assert_eq!(ProtocolStatus::RequestComplete.convert_to_client_result(0), Ok(()));
    assert_eq!(ProtocolStatus::RequestComplete.convert_to_client_result(42), Ok(()));
    assert_eq!(
        ProtocolStatus::CantMpxConn.convert_to_client_result(42),
        Err(ClientError::EndRequestCantMpxConn { app_status: 42 })
    );
    assert_eq!(
        ProtocolStatus::Overloaded.convert_to_client_result(42),
        Err(ClientError::EndRequestOverloaded { app_status: 42 })
    );
    assert_eq!(
        ProtocolStatus::UnknownRole.convert_to_client_result(42),
        Err(ClientError::EndRequestUnknownRole { app_status: 42 })
    );
}

#[test]
fn error_of_a_protocol_status() {
    assert_eq!(
        ClientError::new_end_request_with_protocol_status(ProtocolStatus::CantMpxConn, 1),
        ClientError::EndRequestCantMpxConn { app_status: 1 }
    );
    assert_eq!(
        ClientError::new_end_request_with_protocol_status(ProtocolStatus::Overloaded, 2),
        ClientError::EndRequestOverloaded { app_status: 2 }
    );
    assert_eq!(
        ClientError::new_end_request_with_protocol_status(ProtocolStatus::UnknownRole, 3),
        ClientError::EndRequestUnknownRole { app_status: 3 }
    );
    assert_eq!(
        ClientError::new_end_request_with_protocol_status(ProtocolStatus::RequestComplete, 4),
        ClientError::EndRequestUnknownRole { app_status: 4 }
    );
}

#[test]
fn end_request_record_decodes_its_body() {
    let header = Header::new(RequestType::EndRequest, 1, &[0; 8]);
    let rec = EndRequestRec::new_from_buf(header, &[0x01, 0x02, 0x03, 0x04, 2, 9, 8, 7]);
    assert_eq!(rec.header, header);
    assert_eq!(rec.end_request.app_status, 0x01020304);
    assert_eq!(rec.end_request.protocol_status, ProtocolStatus::Overloaded);
    assert_eq!(rec.end_request.reserved, [9, 8, 7]);
}

#[test]
fn end_request_record_from_a_stream() {
    let wire = end(5, 1000, 1);
    let mut reader = SliceReader::new(&wire);
    let header = Header::new_from_stream(&mut reader).unwrap();
    let rec = EndRequestRec::from_header(&header, &mut reader).unwrap();
    assert_eq!(rec.end_request.app_status, 1000);
    assert_eq!(rec.end_request.protocol_status, ProtocolStatus::CantMpxConn);
    assert!(reader.is_empty());

    let mut reader = SliceReader::new(&wire[..12]);
    let header = Header::new_from_stream(&mut reader).unwrap();
    assert_eq!(
        EndRequestRec::from_header(&header, &mut reader).unwrap_err(),
        ClientError::Io { kind: IoErrorKind::UnexpectedEof }
    );
}

#[test]
fn accumulator_takes_records_one_by_one() {
    let acc = ResponseAccumulator::new(3);
    assert_eq!(acc.id, 3);
    assert!(acc.stdout.is_empty());
    assert!(acc.stderr.is_empty());

    let header = Header::new(RequestType::Stdout, 3, b"abc");
    assert_eq!(acc.check_header(&header), Ok(()));
    let body = [b'a', b'b', b'c', 0, 0, 0, 0, 0];
    let mut reader = SliceReader::new(&body);
    let acc = match acc.on_record(&header, &mut reader).unwrap() {
        Progress::More(acc) => acc,
        Progress::Done(_) => panic!("the response is not complete"),
    };
    assert!(reader.is_empty());
    assert_eq!(acc.stdout, b"abc");

    let header = Header::new(RequestType::Stderr, 3, b"!");
    let body = [b'!', 0, 0, 0, 0, 0, 0, 0];
    let mut reader = SliceReader::new(&body);
    let acc = match acc.on_record(&header, &mut reader).unwrap() {
        Progress::More(acc) => acc,
        Progress::Done(_) => panic!("the response is not complete"),
    };
    assert_eq!(acc.stdout, b"abc");
    assert_eq!(acc.stderr, b"!");

    let body = end_body(0, 0);
    let header = Header::new(RequestType::EndRequest, 3, &body);
    let mut reader = SliceReader::new(&body);
    match acc.on_record(&header, &mut reader).unwrap() {
        Progress::More(_) => panic!("the response is complete"),
        Progress::Done(result) => {
            let response = result.unwrap();
            assert_eq!(response.stdout, Some(b"abc".to_vec()));
            assert_eq!(response.stderr, Some(b"!".to_vec()));
        }
    }
}

#[test]
fn accumulator_tells_the_error_of_the_server_from_a_failure() {
    let body = end_body(42, 2);
    let header = Header::new(RequestType::EndRequest, 3, &body);
    let mut reader = SliceReader::new(&body);
    match ResponseAccumulator::new(3).on_record(&header, &mut reader).unwrap() {
        Progress::More(_) => panic!("the response is complete"),
        Progress::Done(result) => {
            assert_eq!(
                result.unwrap_err(),
                ClientError::EndRequestOverloaded { app_status: 42 }
            );
        }
    }
    let header = Header::new(RequestType::EndRequest, 3, b"short");
    let mut reader = SliceReader::new(b"short\0\0\0");
    assert_eq!(
        ResponseAccumulator::new(3).on_record(&header, &mut reader).unwrap_err(),
        ClientError::Io { kind: IoErrorKind::InvalidData }
    );
}

#[test]
fn accumulator_checks_the_header() {
    let acc = ResponseAccumulator::new(3);
    assert_eq!(
        acc.check_header(&Header::new(RequestType::Stdout, 4, b"")),
        Err(ClientError::ResponseNotFound { id: 3 })
    );
    assert_eq!(
        acc.check_header(&Header::new(RequestType::Stdin, 3, b"")),
        Err(ClientError::UnknownRequestType { request_type: RequestType::Stdin })
    );
    assert_eq!(acc.check_header(&Header::new(RequestType::Stderr, 3, b"")), Ok(()));
    assert_eq!(acc.check_header(&Header::new(RequestType::EndRequest, 3, b"")), Ok(()));

    let header = Header::new(RequestType::Stdout, 4, b"abc");
    let body = [b'a', b'b', b'c', 0, 0, 0, 0, 0];
    let mut reader = SliceReader::new(&body);
    assert_eq!(
        acc.on_record(&header, &mut reader).unwrap_err(),
        ClientError::ResponseNotFound { id: 3 }
    );
    assert_eq!(reader.len(), 8);
}

#[test]
fn finished_accumulator_leaves_out_empty_streams() {
    let mut acc = ResponseAccumulator::new(1);
    acc.stderr.extend_from_slice(b"only stderr");
    let response = acc.finish();
    assert_eq!(response.stdout, None);
    assert_eq!(response.stderr, Some(b"only stderr".to_vec()));
}

#[test]
fn default_response_has_no_output() {
    let response = Response::default();
    assert_eq!(response.stdout, None);
    assert_eq!(response.stderr, None);
}

#[test]
fn error_messages() {
    assert_eq!(
        ClientError::ResponseNotFound { id: 7 }.to_string(),
        "Response not found of request id `7`"
    );
    assert_eq!(
        ClientError::RequestIdNotFound { id: 65535 }.to_string(),
        "Response not found of request id `65535`"
    );
    assert_eq!(
        ClientError::UnknownRequestType { request_type: RequestType::Params }.to_string(),
        "Response not found of request id `4`"
    );
    assert_eq!(
        ClientError::EndRequestCantMpxConn { app_status: 1 }.to_string(),
        "This app can't multiplex [CantMpxConn]; AppStatus: 1"
    );
    assert_eq!(
        ClientError::EndRequestOverloaded { app_status: 42 }.to_string(),
        "New request rejected; too busy [OVERLOADED]; AppStatus: 42"
    );
    assert_eq!(
        ClientError::EndRequestUnknownRole { app_status: 4294967295 }.to_string(),
        "Role value not known [UnknownRole]; AppStatus: 4294967295"
    );
    assert_eq!(
        ClientError::Io { kind: IoErrorKind::UnexpectedEof }.to_string(),
        "unexpected end of file"
    );
    assert_eq!(ClientError::Io { kind: IoErrorKind::InvalidData }.to_string(), "invalid data");
    assert_eq!(ClientError::Io { kind: IoErrorKind::Other }.to_string(), "other error");
    assert_eq!(ClientError::RequestIdExhausted.to_string(), "No request id is free");
}
