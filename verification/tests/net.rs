use crossgate::net::NetError;
use crossgate::tcp::{
    advance, after_parse, after_read, parse_frame, settle_frame, settle_handler, settle_write,
    write_frame, ConnectionError, Frame, FrameError, ReadStep,
};

#[test]
fn it_works() {}

/// A frame of one length byte and that many bytes of payload; a length of
/// 255 ends the conversation, and a length of 254 is no frame.
#[derive(Debug, Clone, PartialEq, Eq)]
struct Packet(Vec<u8>);

impl Frame for Packet {
    fn read(&self, buf: &[u8]) -> (Result<Self, FrameError>, usize) {
        match buf.first() {
            None => (Err(FrameError::Incomplete), 0),
            Some(255) => (Err(FrameError::Exit), 1),
            Some(254) => (Err(FrameError::ParseError("bad length".to_string())), 1),
            Some(&n) => {
                let n = n as usize;
                if buf.len() < 1 + n {
                    (Err(FrameError::Incomplete), 0)
                } else {
                    (Ok(Packet(buf[1..1 + n].to_vec())), 1 + n)
                }
            }
        }
    }

    fn write(&self, out: &mut Vec<u8>) -> Result<(), FrameError> {
        if self.0.len() > 253 {
            return Err(FrameError::ParseError("too long".to_string()));
        }
        out.push(self.0.len() as u8);
        out.extend_from_slice(&self.0);
        Ok(())
    }
}

#[test]
fn a_whole_frame_is_parsed_and_leaves_the_buffer() {
    let mut buffer = vec![2, 10, 20, 1, 30];
    let parsed = parse_frame(&Packet(vec![]), &mut buffer);
    assert_eq!(parsed, Ok(Some(Packet(vec![10, 20]))));
    assert_eq!(buffer, vec![1, 30]);
    let parsed = parse_frame(&Packet(vec![]), &mut buffer);
    assert_eq!(parsed, Ok(Some(Packet(vec![30]))));
    assert_eq!(buffer, Vec::<u8>::new());
}

#[test]
fn an_incomplete_frame_stays_in_the_buffer() {
    let mut buffer = vec![3, 1, 2];
    let parsed = parse_frame(&Packet(vec![]), &mut buffer);
    assert_eq!(parsed, Err(ConnectionError::FrameIncomplete));
    assert_eq!(buffer, vec![3, 1, 2]);
    assert!(matches!(after_parse(parsed), ReadStep::ReadMore));
}

#[test]
fn exit_finishes_the_conversation() {
    let mut buffer = vec![255, 7];
    let parsed = parse_frame(&Packet(vec![]), &mut buffer);
    assert_eq!(parsed, Err(ConnectionError::Fin));
    assert_eq!(buffer, vec![7]);
    assert!(matches!(after_parse(parsed), ReadStep::Done(Err(ConnectionError::Fin))));
    assert_eq!(settle_handler(Some(Err(ConnectionError::Fin))), Ok(()));
}

#[test]
fn a_parse_error_is_handed_on() {
    let mut buffer = vec![254];
    let parsed = parse_frame(&Packet(vec![]), &mut buffer);
    assert_eq!(
        parsed,
        Err(ConnectionError::FrameError(FrameError::ParseError("bad length".to_string())))
    );
    assert_eq!(
        settle_handler(Some(parsed.clone().map(|_| ()))),
        Err(ConnectionError::FrameError(FrameError::ParseError("bad length".to_string())))
    );
}

#[test]
fn settle_frame_maps_each_failure() {
    assert_eq!(settle_frame(Ok(5u8)), Ok(Some(5u8)));
    assert_eq!(settle_frame::<u8>(Err(FrameError::Incomplete)), Err(ConnectionError::FrameIncomplete));
    assert_eq!(settle_frame::<u8>(Err(FrameError::Exit)), Err(ConnectionError::Fin));
    let other = FrameError::Other(NetError::InternalError("x".to_string()));
    assert_eq!(settle_frame::<u8>(Err(other.clone())), Err(ConnectionError::FrameError(other)));
}

#[test]
fn advance_drops_the_front_and_never_more_than_all() {
    let mut buffer = vec![1, 2, 3];
    advance(&mut buffer, 0);
    assert_eq!(buffer, vec![1, 2, 3]);
    advance(&mut buffer, 2);
    assert_eq!(buffer, vec![3]);
    advance(&mut buffer, 9);
    assert_eq!(buffer, Vec::<u8>::new());
}

#[test]
fn reading_ends_at_the_end_of_the_stream_and_on_failure() {
    assert_eq!(after_read::<u8>(Ok(0)), Some(Ok(None)));
    assert_eq!(after_read::<u8>(Ok(12)), None);
    assert_eq!(
        after_read::<u8>(Err("reset".to_string())),
        Some(Err(ConnectionError::IoError("reset".to_string())))
    );
}

#[test]
fn a_frame_is_written_as_its_bytes() {
    assert_eq!(write_frame(&Packet(vec![9, 8])), Ok(vec![2, 9, 8]));
    assert_eq!(
        write_frame(&Packet(vec![0; 300])),
        Err(ConnectionError::FrameError(FrameError::ParseError("too long".to_string())))
    );
}

#[test]
fn a_handler_ends_well_on_shutdown() {
    assert_eq!(settle_handler(None), Ok(()));
    assert_eq!(settle_handler(Some(Ok(()))), Ok(()));
    assert_eq!(
        settle_handler(Some(Err(ConnectionError::IoError("x".to_string())))),
        Err(ConnectionError::IoError("x".to_string()))
    );
}

#[test]
fn failures_of_the_network_layer_do_not_tell_their_detail() {
    assert_eq!(NetError::InternalError("secret".to_string()).message(), "NetError");
    assert_eq!(ConnectionError::Fin.message(), "ConnectionError");
    let below = crossgate::tcp::NetError::Other(NetError::InternalError("x".to_string()));
    assert_eq!(below.clone(), below);
}

#[test]
fn a_failure_of_the_layer_below_is_handed_on() {
    let below = ConnectionError::Other(NetError::InternalError("down".to_string()));
    assert_eq!(settle_handler(Some(Err(below.clone()))), Err(below.clone()));
    assert!(matches!(after_parse::<u8>(Err(below)), ReadStep::Done(Err(ConnectionError::Other(_)))));
}

#[test]
fn a_written_frame_is_its_bytes_and_an_unwritten_one_a_frame_error() {
    assert_eq!(settle_write(Ok(()), vec![2, 9, 8]), Ok(vec![2, 9, 8]));
    assert_eq!(settle_write(Ok(()), vec![]), Ok(vec![]));
    assert_eq!(
        settle_write(Err(FrameError::Exit), vec![1, 2]),
        Err(ConnectionError::FrameError(FrameError::Exit))
    );
    assert_eq!(
        settle_write(Err(FrameError::Incomplete), vec![]),
        Err(ConnectionError::FrameError(FrameError::Incomplete))
    );
}
