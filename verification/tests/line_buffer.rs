use linegrep::searcher::line_buffer::{
    FillStep, LineBuffer, LineBufferBuilder, DEFAULT_BUFFER_CAPACITY,
};

/// Fills `buffer` from `source`, which hands out at most `chunk` bytes at a
/// time, and says whether the buffer holds lines.
fn fill_by(buffer: &mut LineBuffer, source: &mut &[u8], chunk: usize) -> bool {
    let mut want = buffer.fill_start();
    loop {
        let n = want.min(source.len()).min(chunk);
        let (piece, rest) = source.split_at(n);
        *source = rest;
        match buffer.fill_accept(piece) {
            FillStep::More(more) => want = more,
            FillStep::Done(has_lines) => return has_lines,
        }
    }
}

fn fill(buffer: &mut LineBuffer, source: &mut &[u8]) -> bool {
    fill_by(buffer, source, usize::MAX)
}

/// All that a buffer of `capacity` bytes hands out of `input`, piece by
/// piece.
fn deliver(input: &[u8], capacity: usize, chunk: usize) -> Vec<Vec<u8>> {
    let mut builder = LineBufferBuilder::new();
    builder.capacity(capacity);
    let mut buffer = builder.build();
    let mut source = input;
    let mut pieces = Vec::new();
    while fill_by(&mut buffer, &mut source, chunk) {
        let lines = buffer.buffer().to_vec();
        buffer.consume(lines.len());
        pieces.push(lines);
    }
    assert_eq!(buffer.absolute_byte_offset(), input.len() as u64);
    pieces
}

#[test]
fn buffer_basic() {
    let lines = "homer\nlisa\nmaggie";
    let mut line_buffer = LineBufferBuilder::new().build();
    let mut source = lines.as_bytes();
    assert!(line_buffer.buffer().is_empty());
    assert!(fill(&mut line_buffer, &mut source));
    let bstr = line_buffer.buffer().to_vec();
    assert_eq!("homer\nlisa\n".as_bytes(), bstr);
    println!("bstr len: {}", bstr.len());
    line_buffer.consume(bstr.len());

    assert!(fill(&mut line_buffer, &mut source));
    let bstr = line_buffer.buffer().to_vec();
    assert_eq!("maggie".as_bytes(), bstr);
    line_buffer.consume(bstr.len());
    assert!(!fill(&mut line_buffer, &mut source));
    assert_eq!(line_buffer.absolute_byte_offset(), 17);
}

#[test]
fn buffer_resize() {
    let lines = "homer\nlisa_this_message_will_cause_buffer_resize\nmaggie";
    let mut line_buffer = LineBufferBuilder::new().capacity(8).build();
    let mut source = lines.as_bytes();
    assert!(fill(&mut line_buffer, &mut source));
    let bstr = line_buffer.buffer().to_vec();
    assert_eq!("homer\n".as_bytes(), bstr);
    println!("bstr len: {}", bstr.len());
    line_buffer.consume(bstr.len());

    assert!(fill(&mut line_buffer, &mut source));
    let bstr = line_buffer.buffer().to_vec();
    assert_eq!("lisa_this_message_will_cause_buffer_resize\n".as_bytes(), bstr);
    line_buffer.consume(bstr.len());
}

#[test]
fn default_capacity_is_64_kib() {
    assert_eq!(DEFAULT_BUFFER_CAPACITY, 64 * 1024);
}

#[test]
fn storage_grows_to_three_times_its_length() {
    let mut line_buffer = LineBufferBuilder::new().capacity(8).build();
    assert_eq!(line_buffer.fill_start(), 8);
    assert_eq!(line_buffer.fill_accept(b"12345678"), FillStep::More(16));
    assert_eq!(line_buffer.fill_accept(b"1234567890123456"), FillStep::More(48));
    assert_eq!(line_buffer.fill_accept(b"\n"), FillStep::Done(true));
    assert_eq!(line_buffer.buffer().len(), 25);
}

#[test]
fn storage_of_no_bytes_grows_to_two() {
    let mut line_buffer = LineBufferBuilder::new().capacity(0).build();
    assert_eq!(line_buffer.fill_start(), 2);
    assert_eq!(line_buffer.fill_accept(b"ab"), FillStep::More(4));
    assert_eq!(line_buffer.fill_accept(b""), FillStep::Done(true));
    assert_eq!(line_buffer.buffer(), b"ab");
}

#[test]
fn end_of_input_hands_out_the_last_line() {
    let mut line_buffer = LineBufferBuilder::new().build();
    line_buffer.fill_start();
    assert_eq!(line_buffer.fill_accept(b"no terminator"), FillStep::More(65536 - 13));
    assert_eq!(line_buffer.fill_accept(b""), FillStep::Done(true));
    assert_eq!(line_buffer.buffer(), b"no terminator");
}

#[test]
fn end_of_empty_input_hands_out_nothing() {
    let mut line_buffer = LineBufferBuilder::new().build();
    line_buffer.fill_start();
    assert_eq!(line_buffer.fill_accept(b""), FillStep::Done(false));
    assert!(line_buffer.buffer().is_empty());
}

#[test]
fn a_partial_line_is_withheld() {
    let mut line_buffer = LineBufferBuilder::new().build();
    line_buffer.fill_start();
    assert_eq!(line_buffer.fill_accept(b"one\ntwo\nthr"), FillStep::Done(true));
    assert_eq!(line_buffer.buffer(), b"one\ntwo\n");
    line_buffer.consume(4);
    assert_eq!(line_buffer.buffer(), b"two\n");
    assert_eq!(line_buffer.absolute_byte_offset(), 4);
    line_buffer.consume(4);
    line_buffer.fill_start();
    assert_eq!(line_buffer.fill_accept(b"ee\n"), FillStep::Done(true));
    assert_eq!(line_buffer.buffer(), b"three\n");
}

#[test]
fn another_terminator_ends_lines() {
    let mut builder = LineBufferBuilder::new();
    builder.line_terminator(b';');
    let mut line_buffer = builder.build();
    line_buffer.fill_start();
    assert_eq!(line_buffer.fill_accept(b"a;b\nc;d"), FillStep::Done(true));
    assert_eq!(line_buffer.buffer(), b"a;b\nc;");
}

#[test]
fn clear_starts_again() {
    let mut line_buffer = LineBufferBuilder::new().build();
    line_buffer.fill_start();
    line_buffer.fill_accept(b"abc\n");
    line_buffer.consume(2);
    line_buffer.clear();
    assert!(line_buffer.buffer().is_empty());
    assert_eq!(line_buffer.absolute_byte_offset(), 0);
    line_buffer.fill_start();
    assert_eq!(line_buffer.fill_accept(b"x\n"), FillStep::Done(true));
    assert_eq!(line_buffer.buffer(), b"x\n");
}

#[test]
fn every_byte_is_delivered_whatever_the_capacity() {
    let input = b"homer\nlisa_this_message_will_cause_buffer_resize\nmaggie\n\nbart";
    for capacity in [0usize, 1, 2, 3, 7, 8, 16, 64, 65536] {
        for chunk in [1usize, 2, 5, 1000] {
            let pieces = deliver(input, capacity, chunk);
            let all: Vec<u8> = pieces.concat();
            assert_eq!(all, input, "capacity {capacity}, chunk {chunk}");
            for (i, piece) in pieces.iter().enumerate() {
                assert!(!piece.is_empty());
                if i + 1 < pieces.len() {
                    assert_eq!(piece.last(), Some(&b'\n'));
                }
            }
        }
    }
}

#[test]
fn growing_does_not_change_what_is_delivered() {
    let input = b"a line that is much longer than eight bytes\nand one more\nend";
    let grown: Vec<u8> = deliver(input, 8, usize::MAX).concat();
    let roomy: Vec<u8> = deliver(input, 1 << 20, usize::MAX).concat();
    assert_eq!(grown, roomy);
    assert_eq!(grown, input);
}

#[test]
fn empty_input_delivers_nothing() {
    assert!(deliver(b"", 8, 1).is_empty());
    assert_eq!(deliver(b"\n", 8, 1), vec![b"\n".to_vec()]);
}
