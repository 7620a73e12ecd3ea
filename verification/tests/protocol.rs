use rdb::client::{Client, Received, Recovery};
use rdb::error::RorError;
use rdb::request::{
    frame_size, ConnectError, ConnectReply, ConnectRequest, Message, OperateRequest,
    OperateResult, Wire, USIZE_SIZE,
};
use rdb::store::value::Value;
use rdb::user::user_error::UserError;

fn s(x: &str) -> String {
    x.to_string()
}

#[test]
fn frame_is_length_then_body() {
    let message = Message::new(OperateResult::Success);
    let (buf, body_size) = message.as_bytes().unwrap();
    assert_eq!(body_size, 4);
    assert_eq!(buf, vec![0, 0, 0, 0, 0, 0, 0, 4, 2, 0, 0, 0]);
    let mut prefix = [0u8; USIZE_SIZE];
    prefix.copy_from_slice(&buf[..8]);
    assert_eq!(frame_size(&prefix), 4);
    assert_eq!(frame_size(&[0, 0, 0, 0, 0, 0, 1, 2]), 258);
    let back = Message::<OperateResult>::from_frame(&buf).unwrap();
    assert_eq!(back.into_inner(), OperateResult::Success);
}

#[test]
fn from_frame_wants_exactly_one_frame() {
    let (mut buf, _) = Message::new(OperateRequest::Compact).as_bytes().unwrap();
    assert!(Message::<OperateRequest>::from_frame(&buf[..7]).is_none());
    assert!(Message::<OperateRequest>::from_frame(&buf[..11]).is_none());
    buf.push(0);
    assert!(Message::<OperateRequest>::from_frame(&buf).is_none());
}

#[test]
fn every_request_round_trips() {
    let requests = vec![
        OperateRequest::Open { path: s("p") },
        OperateRequest::Get { key: s("k") },
        OperateRequest::Add {
            key: s("kéy"),
            value: Value::Array(Box::new(vec![Value::Int32(1), Value::String(s("x"))])),
        },
        OperateRequest::Delete { key: s("") },
        OperateRequest::CreateUser { name: s("n"), password: s("pw"), level: s("2") },
        OperateRequest::DeleteUser { name: s("n") },
        OperateRequest::GetType { key: s("k") },
        OperateRequest::Compact,
        OperateRequest::Quit,
    ];
    for r in requests {
        let bytes = r.to_bytes();
        assert_eq!(OperateRequest::from_bytes(&bytes), Some(r.clone()));
        let mut longer = bytes.clone();
        longer.push(0);
        assert_eq!(OperateRequest::from_bytes(&longer), None);
        assert_eq!(OperateRequest::from_bytes(&bytes[..bytes.len() - 1]), None);
    }
    assert_eq!(OperateRequest::from_bytes(&[9, 0, 0, 0]), None);
    assert_eq!(OperateRequest::from_bytes(&[]), None);
}

#[test]
fn every_result_round_trips() {
    let results = vec![
        OperateResult::Found(Value::Float64(2.5f64.to_bits())),
        OperateResult::Type(s("Int")),
        OperateResult::Success,
        OperateResult::PermissionDenied,
        OperateResult::KeyNotFound,
        OperateResult::Failure,
    ];
    for r in results {
        let bytes = r.to_bytes();
        let back = OperateResult::from_bytes(&bytes);
        assert_eq!(back.as_ref(), Some(&r));
    }
    assert_eq!(OperateResult::from_bytes(&[6, 0, 0, 0]), None);
    assert_eq!(OperateResult::from_bytes(&[2, 0, 0, 0, 0]), None);
}

#[test]
fn handshake_messages_round_trip() {
    let request =
        ConnectRequest { db_path: s("default.data"), user_name: s("root"), password: s("123456") };
    let bytes = request.to_bytes();
    assert_eq!(
        bytes,
        bincode::serialize(&(s("default.data"), s("root"), s("123456"))).unwrap()
    );
    assert_eq!(ConnectRequest::from_bytes(&bytes), Some(request));
    assert_eq!(ConnectRequest::from_bytes(&bytes[1..]), None);
    let replies = vec![
        ConnectReply::Success,
        ConnectReply::Error(ConnectError::RequestError),
        ConnectReply::Error(ConnectError::UserNotFound),
        ConnectReply::Error(ConnectError::PasswordError),
        ConnectReply::Error(ConnectError::OpenFileError),
        ConnectReply::Error(ConnectError::PathError),
        ConnectReply::Error(ConnectError::ServerError),
    ];
    for (i, r) in replies.iter().enumerate() {
        let bytes = r.to_bytes();
        if i == 0 {
            assert_eq!(bytes, vec![0, 0, 0, 0]);
        } else {
            assert_eq!(bytes, bincode::serialize(&(1u32, (i - 1) as u32)).unwrap());
        }
        assert_eq!(ConnectReply::from_bytes(&bytes), Some(*r));
    }
    assert_eq!(ConnectReply::from_bytes(&[1, 0, 0, 0, 6, 0, 0, 0]), None);
    assert_eq!(ConnectReply::from_bytes(&[2, 0, 0, 0]), None);
}

#[test]
fn message_layouts_agree_with_bincode() {
    assert_eq!(
        OperateRequest::Get { key: s("k") }.to_bytes(),
        bincode::serialize(&(1u32, s("k"))).unwrap()
    );
    assert_eq!(
        OperateRequest::Add { key: s("k"), value: Value::Int64(-3) }.to_bytes(),
        bincode::serialize(&(2u32, s("k"), (3u32, -3i64))).unwrap()
    );
    assert_eq!(
        OperateRequest::CreateUser { name: s("a"), password: s("b"), level: s("3") }.to_bytes(),
        bincode::serialize(&(4u32, s("a"), s("b"), s("3"))).unwrap()
    );
    assert_eq!(OperateRequest::Quit.to_bytes(), bincode::serialize(&8u32).unwrap());
    assert_eq!(
        OperateResult::Type(s("Long")).to_bytes(),
        bincode::serialize(&(1u32, s("Long"))).unwrap()
    );
    assert_eq!(
        OperateResult::Found(Value::Char('x')).to_bytes(),
        bincode::serialize(&(0u32, (7u32, 'x'))).unwrap()
    );
}

fn client() -> Client {
    Client::new(s("127.0.0.1"), s("11451"), s("root"), s("123456"), s("default.data"))
}

#[test]
fn client_frames_its_handshake() {
    let c = client();
    assert_eq!(c.address(), "127.0.0.1:11451");
    let frame = c.connect();
    let back = Message::<ConnectRequest>::from_frame(&frame).unwrap().into_inner();
    assert_eq!(
        back,
        ConnectRequest { db_path: s("default.data"), user_name: s("root"), password: s("123456") }
    );
}

#[test]
fn client_reads_the_answer_to_its_handshake() {
    let c = client();
    let answer = |r: ConnectReply| c.connected(&r.to_bytes());
    assert_eq!(answer(ConnectReply::Success), Ok(()));
    assert_eq!(
        answer(ConnectReply::Error(ConnectError::UserNotFound)),
        Err(RorError::UserError(UserError::UserNotFound(s("root"))))
    );
    assert_eq!(
        answer(ConnectReply::Error(ConnectError::PasswordError)),
        Err(RorError::UserError(UserError::WrongPassWord))
    );
    assert_eq!(answer(ConnectReply::Error(ConnectError::OpenFileError)), Err(RorError::OpenFileFailed));
    assert_eq!(answer(ConnectReply::Error(ConnectError::RequestError)), Err(RorError::RequestError));
    assert_eq!(answer(ConnectReply::Error(ConnectError::PathError)), Err(RorError::PathError));
    assert_eq!(answer(ConnectReply::Error(ConnectError::ServerError)), Err(RorError::ServerError));
    assert_eq!(c.connected(&[7]), Err(RorError::IncompleteData));
}

#[test]
fn client_retries_a_lost_request_once() {
    let c = client();
    let request = OperateRequest::Get { key: s("k") };
    let frame = c.operate(&request);
    assert_eq!(
        Message::<OperateRequest>::from_frame(&frame).unwrap().into_inner(),
        request
    );
    // the first attempt cannot be sent: reconnect and submit the same request again
    let first = c.operated(request.clone(), Received::NotSent);
    assert_eq!(first, Err(RorError::ConnectionLost(request.clone())));
    let again = match Client::recover(first) {
        Recovery::Reconnect(r) => r,
        other => panic!("expected a reconnection, got {:?}", other),
    };
    assert_eq!(again, request);
    // the second attempt is answered: the operation is over
    let second = c.operated(again, Received::Body(OperateResult::KeyNotFound.to_bytes()));
    assert_eq!(Client::recover(second), Recovery::Done(Ok(OperateResult::KeyNotFound)));
    // other failures are final
    let lost = c.operated(request.clone(), Received::NoReply);
    assert_eq!(lost, Err(RorError::AbnormalConnection));
    assert_eq!(Client::recover(lost), Recovery::Done(Err(RorError::AbnormalConnection)));
    let garbled = c.operated(request, Received::Body(vec![1, 2, 3]));
    assert_eq!(garbled, Err(RorError::IncompleteData));
}
