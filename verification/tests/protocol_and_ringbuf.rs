use cortexos::protocol::{parse_command, LedCommand, LineAssembler, LineAssemblerEvent, ParsedCommand};
use cortexos::mqueue::MsgQueue;
use cortexos::ringbuf::{RingBuf, RingBufError};

#[test]
fn parse_basic_commands() {
    assert_eq!(parse_command("PING"), Ok(ParsedCommand::Ping));
    assert_eq!(parse_command("ECHO soak"), Ok(ParsedCommand::Echo("soak")));
    assert_eq!(
        parse_command("LED toggle"),
        Ok(ParsedCommand::Led(LedCommand::Toggle))
    );
    assert_eq!(parse_command("PWM 100"), Ok(ParsedCommand::Pwm(100)));
    assert_eq!(parse_command("STAT"), Ok(ParsedCommand::Stat));
}

#[test]
fn reject_invalid_commands() {
    assert!(parse_command("").is_err());
    assert!(parse_command("LED blink").is_err());
    assert!(parse_command("PWM 101").is_err());
    assert!(parse_command("PWM nope").is_err());
    assert!(parse_command("UNKNOWN").is_err());
}

#[test]
fn line_assembler_handles_complete_partial_and_sticky_lines() {
    let mut assembler = LineAssembler::<8>::new();

    for byte in b"PING\r" {
        assert!(matches!(assembler.push_byte(*byte), LineAssemblerEvent::NoEvent));
    }
    assert!(matches!(assembler.push_byte(b'\n'), LineAssemblerEvent::Line(_)));

    let mut outputs = [0u8; 2];
    let mut count = 0usize;
    for byte in b"ECHO\r\nSTAT\r\n" {
        if let LineAssemblerEvent::Line(line) = assembler.push_byte(*byte) {
            outputs[count] = line.as_bytes().len() as u8;
            count += 1;
        }
    }

    assert_eq!(count, 2);
    assert_eq!(outputs, [4, 4]);
}

#[test]
fn line_assembler_recovers_after_overflow() {
    let mut assembler = LineAssembler::<4>::new();

    for byte in b"HELLO" {
        if *byte == b'O' {
            assert_eq!(assembler.push_byte(*byte), LineAssemblerEvent::Dropped);
        } else {
            assert_eq!(assembler.push_byte(*byte), LineAssemblerEvent::NoEvent);
        }
    }

    assert_eq!(assembler.push_byte(b'\n'), LineAssemblerEvent::NoEvent);

    for byte in b"OK\r\n" {
        if let LineAssemblerEvent::Line(line) = assembler.push_byte(*byte) {
            assert_eq!(line.as_bytes(), b"OK");
            return;
        }
    }

    panic!("expected recovered line");
}

#[test]
fn ringbuf_push_pop_wrap_and_full() {
    let mut buf = RingBuf::<4>::new();
    assert_eq!(buf.capacity(), 4);
    assert!(buf.is_empty());

    assert_eq!(buf.push_slice(b"abc"), 3);
    assert_eq!(buf.len(), 3);
    assert_eq!(buf.pop(), Some(b'a'));
    assert_eq!(buf.push_slice(b"de"), 2);
    assert!(buf.is_full());
    assert_eq!(buf.push(b'f'), Err(RingBufError::Full));

    let mut out = [0u8; 4];
    let popped = buf.pop_slice(&mut out);
    assert_eq!(popped, 4);
    assert_eq!(&out[..popped], b"bcde");
    assert!(buf.is_empty());
}

#[test]
fn line_assembler_drops_carriage_returns_anywhere() {
    let mut a = LineAssembler::<4>::new();
    for &b in b"A\rB\r" {
        assert!(matches!(a.push_byte(b), LineAssemblerEvent::NoEvent));
    }
    match a.push_byte(b'\n') {
        LineAssemblerEvent::Line(l) => assert_eq!(l.as_bytes(), b"AB"),
        _ => panic!("expected a line"),
    }
    for &b in b"WXYZ" {
        assert!(matches!(a.push_byte(b), LineAssemblerEvent::NoEvent));
    }
    assert!(matches!(a.push_byte(b'\r'), LineAssemblerEvent::NoEvent));
    assert!(matches!(a.push_byte(b'Q'), LineAssemblerEvent::Dropped));
    assert!(matches!(a.push_byte(b'\n'), LineAssemblerEvent::NoEvent));
    assert!(matches!(a.push_byte(b'\n'), LineAssemblerEvent::NoEvent));
}

#[test]
fn message_queue_is_fifo_across_wrap() {
    let mut q = MsgQueue::<3>::new();
    assert_eq!(q.send(9), Ok(()));
    assert_eq!(q.recv(), Some(9));
    for m in [1usize, 2, 3] {
        assert_eq!(q.send(m), Ok(()));
    }
    assert!(q.send(4).is_err());
    assert_eq!(q.recv(), Some(1));
    assert_eq!(q.recv(), Some(2));
    assert_eq!(q.recv(), Some(3));
    assert_eq!(q.recv(), None);
    assert_eq!(q.len(), 0);
}

#[test]
fn ring_takes_back_partial_line() {
    let mut r = RingBuf::<8>::new();
    for &b in b"ab\ncd" {
        assert_eq!(r.push(b), Ok(()));
    }
    assert!(r.cut_back_to(b'\n'));
    assert_eq!(r.len(), 3);
    assert_eq!(r.newest(), Some(b'\n'));
    assert_eq!(r.pop(), Some(b'a'));
    assert_eq!(r.pop(), Some(b'b'));
    assert_eq!(r.pop_newest(), Some(b'\n'));
    assert_eq!(r.pop_newest(), None);
    assert!(!r.cut_back_to(b'\n'));
}
