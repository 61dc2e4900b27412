//! The engine, fed and watched from outside.

use wireline::crc::Crc32;
use wireline::engine::Zm;
use wireline::event::Event;
use wireline::frame::{
    bin_header, hex_header, subpacket, CAN, CANFC32, CANFDX, CANOVIO, ZABORT, ZACK, ZCRCE, ZCRCG,
    ZCRCQ, ZCRCW, ZDATA, ZDLE, ZEOF, ZFERR, ZFILE, ZFIN, ZNAK, ZRINIT, ZRPOS, ZRQINIT, ZSINIT,
    ZSKIP,
};
use wireline::text::write_offer;

fn feed(zm: &mut Zm, data: &[u8]) -> Vec<Event> {
    let mut out = Vec::new();
    zm.feed(data, &mut out);
    out
}

fn forwarded(events: &[Event]) -> Vec<u8> {
    let mut all = Vec::new();
    for e in events {
        if let Event::Forward(b) = e {
            all.extend_from_slice(b);
        }
    }
    all
}

fn stored(events: &[Event]) -> Vec<u8> {
    let mut all = Vec::new();
    for e in events {
        if let Event::Store(b) = e {
            all.extend_from_slice(b);
        }
    }
    all
}

fn progress(name: &str, done: u64, total: u64, dir: &'static str) -> Event {
    Event::Progress { name: name.to_string(), done, total, dir }
}

fn our_rinit() -> Event {
    Event::Write(hex_header(ZRINIT, (CANFDX | CANOVIO | CANFC32).to_be_bytes()))
}

/// The bytes with which a file is offered to a receiver of these capabilities.
fn offer_with(name: &str, size: u64, flags: u32) -> Vec<u8> {
    let c = Crc32::new();
    let mut w = bin_header(ZFILE, [0; 4], flags, &c);
    w.extend_from_slice(&subpacket(&write_offer(name, size), ZCRCW, flags, &c));
    w
}

/// The bytes with which a sender without 32-bit checks offers a file.
fn offer(name: &str, size: u64) -> Vec<u8> {
    offer_with(name, size, 0)
}

/// An engine that waits for a file of a remote sender.
fn receiver() -> Zm {
    let mut zm = Zm::new();
    assert_eq!(feed(&mut zm, &hex_header(ZRQINIT, [0; 4])), vec![our_rinit()]);
    zm
}

/// An engine that was offered a file.
fn offered(name: &str, size: u64) -> Zm {
    let mut zm = receiver();
    assert_eq!(
        feed(&mut zm, &offer(name, size)),
        vec![Event::RecvOffer { name: name.to_string(), size }]
    );
    zm
}

/// An engine that receives a file and waits for data at the start.
fn receiving(name: &str, size: u64) -> Zm {
    let mut zm = offered(name, size);
    let mut out = Vec::new();
    zm.accept_receive("/tmp/x", Ok(()), &mut out);
    assert_eq!(out, vec![Event::Write(hex_header(ZRPOS, [0; 4]))]);
    let c = Crc32::new();
    assert_eq!(feed(&mut zm, &bin_header(ZDATA, [0; 4], 0, &c)), vec![]);
    zm
}

/// An engine whose remote receiver has these capabilities.
fn sender(flags: u32) -> Zm {
    let mut zm = Zm::new();
    assert_eq!(feed(&mut zm, &hex_header(ZRINIT, flags.to_be_bytes())), vec![Event::SendReady]);
    zm
}

/// An engine that has offered one file and awaits where to start.
fn offering(flags: u32, name: &str, size: u64) -> Zm {
    let mut zm = sender(flags);
    let mut out = Vec::new();
    zm.start_send(vec![format!("/home/u/{}", name)], &mut out);
    assert_eq!(out, vec![]);
    zm.file_opened(Some(name.to_string()), Some(size), &mut out);
    zm
}

fn streaming(flags: u32, name: &str, size: u64) -> Zm {
    let mut zm = offering(flags, name, size);
    let c = Crc32::new();
    assert_eq!(
        feed(&mut zm, &hex_header(ZRPOS, [0; 4])),
        vec![Event::Seek(0), Event::Write(bin_header(ZDATA, [0; 4], flags, &c))]
    );
    assert!(zm.needs_pump());
    zm
}

#[test]
fn new_engine_is_idle() {
    let zm = Zm::new();
    assert!(!zm.active());
    assert!(!zm.needs_pump());
    assert!(!zm.awaits_accept());
    assert_eq!(zm.file_wanted(), None);
}

#[test]
fn plain_text_goes_to_the_terminal() {
    let mut zm = Zm::new();
    assert_eq!(feed(&mut zm, b"abc"), vec![]);
    assert_eq!(feed(&mut zm, b"defg"), vec![Event::Forward(b"abcd".to_vec())]);
    assert_eq!(feed(&mut zm, b"\r\n$ "), vec![Event::Forward(b"efg\r".to_vec())]);
    assert!(!zm.active());
}

#[test]
fn every_terminal_byte_is_shown_in_order() {
    let mut zm = Zm::new();
    let mut all = Vec::new();
    let mut seen = Vec::new();
    for i in 0..2000usize {
        let piece: Vec<u8> = (0..(i % 7)).map(|k| ((i * 31 + k * 17) % 256) as u8).collect();
        all.extend_from_slice(&piece);
        seen.extend_from_slice(&forwarded(&feed(&mut zm, &piece)));
    }
    assert!(all.len() - seen.len() < 18);
    assert_eq!(seen[..], all[..seen.len()]);
}

#[test]
fn text_before_a_header_is_shown_first() {
    let mut zm = Zm::new();
    let mut line = b"rz\r".to_vec();
    line.extend_from_slice(&hex_header(ZRQINIT, [0; 4]));
    assert_eq!(feed(&mut zm, &line), vec![Event::Forward(b"rz\r".to_vec()), our_rinit()]);
    assert!(zm.active());
}

#[test]
fn damaged_first_header_is_shown() {
    let mut zm = Zm::new();
    let line = b"**\x18B00000000000001\r\n";
    let events = feed(&mut zm, line);
    assert!(!zm.active());
    let shown = forwarded(&events);
    assert_eq!(shown[..], line[..shown.len()]);
    assert_eq!(shown.len(), line.len() - 3);
    // a signature without digits
    let mut zm = Zm::new();
    let line = b"**\x18Bxxxxxxxxxxxxxxxx";
    let shown = forwarded(&feed(&mut zm, line));
    assert_eq!(shown[..], line[..line.len() - 3]);
}

#[test]
fn start_of_a_header_is_kept_back() {
    let mut zm = Zm::new();
    assert_eq!(feed(&mut zm, b"**\x18B0000000"), vec![]);
    assert_eq!(feed(&mut zm, b"0000000\r\n\x11"), vec![our_rinit()]);
}

#[test]
fn first_header_in_two_pieces() {
    let line = hex_header(ZRQINIT, [0; 4]);
    for k in 0..18 {
        let mut zm = Zm::new();
        assert_eq!(feed(&mut zm, &line[..k]), vec![]);
        assert_eq!(feed(&mut zm, &line[k..]), vec![our_rinit()]);
    }
}

#[test]
fn header_in_a_transfer_in_two_pieces() {
    let fin = hex_header(ZFIN, [0; 4]);
    for k in 0..18 {
        let mut zm = receiver();
        assert_eq!(feed(&mut zm, &fin[..k]), vec![]);
        assert_eq!(
            feed(&mut zm, &fin[k..]),
            vec![Event::Write(fin.clone()), Event::Finished]
        );
    }
}

#[test]
fn hex_header_in_any_pieces() {
    // out of a transfer, in one, and at the end of one
    let invitation = hex_header(ZRQINIT, [0; 4]);
    let attention = hex_header(ZSINIT, [0; 4]);
    let fin = hex_header(ZFIN, [0; 4]);
    for n in 1..22 {
        let mut zm = Zm::new();
        let mut events = Vec::new();
        for line in [&invitation, &attention, &attention, &fin] {
            for piece in line.chunks(n) {
                events.extend(feed(&mut zm, piece));
            }
        }
        assert_eq!(
            events,
            vec![
                our_rinit(),
                Event::Write(hex_header(ZACK, [0; 4])),
                Event::Write(hex_header(ZACK, [0; 4])),
                Event::Write(fin.clone()),
                Event::Finished,
            ]
        );
        assert!(!zm.active());
        assert_eq!(forwarded(&feed(&mut zm, b"OOshell$ ")), b"shel".to_vec());
    }
    // one that means nothing out of a transfer: only its late line end is shown
    let mut zm = Zm::new();
    assert_eq!(feed(&mut zm, &attention[..20]), vec![Event::Write(hex_header(ZACK, [0; 4]))]);
    assert_eq!(feed(&mut zm, &attention[20..]), vec![]);
    assert_eq!(feed(&mut zm, b"abc"), vec![Event::Forward(vec![0x11])]);
}

#[test]
fn binary_header_in_any_pieces() {
    let c = Crc32::new();
    for flags in [0, CANFC32] {
        let line = bin_header(ZFIN, [0; 4], flags, &c);
        for n in 1..=line.len() {
            let mut zm = receiver();
            let mut events = Vec::new();
            for piece in line.chunks(n) {
                events.extend(feed(&mut zm, piece));
            }
            assert_eq!(events, vec![Event::Write(hex_header(ZFIN, [0; 4])), Event::Finished]);
        }
    }
}

#[test]
fn binary_header_in_two_pieces() {
    let c = Crc32::new();
    for flags in [0, CANFC32] {
        let line = bin_header(ZFIN, [0; 4], flags, &c);
        for k in 0..line.len() {
            let mut zm = receiver();
            assert_eq!(feed(&mut zm, &line[..k]), vec![]);
            assert_eq!(
                feed(&mut zm, &line[k..]),
                vec![Event::Write(hex_header(ZFIN, [0; 4])), Event::Finished]
            );
        }
    }
}

#[test]
fn offer_in_two_pieces() {
    for line in [offer("a.bin", 77), offer_with("a.bin", 77, CANFC32)] {
        for k in 0..line.len() {
            let mut zm = receiver();
            assert_eq!(feed(&mut zm, &line[..k]), vec![]);
            assert!(!zm.awaits_accept());
            assert_eq!(
                feed(&mut zm, &line[k..]),
                vec![Event::RecvOffer { name: "a.bin".to_string(), size: 77 }]
            );
            assert!(zm.awaits_accept());
        }
    }
}

#[test]
fn offer_in_many_pieces() {
    for line in [offer("a.bin", 77), offer_with("a.bin", 77, CANFC32)] {
        for n in 1..5 {
            let mut zm = receiver();
            let mut events = Vec::new();
            for piece in line.chunks(n) {
                events.extend(feed(&mut zm, piece));
            }
            assert_eq!(events, vec![Event::RecvOffer { name: "a.bin".to_string(), size: 77 }]);
        }
    }
}

#[test]
fn check_width_is_that_of_the_header() {
    let c = Crc32::new();
    // the offer is checked with 32 bits, the data with 16
    let mut zm = receiver();
    assert_eq!(
        feed(&mut zm, &offer_with("a", 2, CANFC32)),
        vec![Event::RecvOffer { name: "a".to_string(), size: 2 }]
    );
    let mut out = Vec::new();
    zm.accept_receive("/tmp/a", Ok(()), &mut out);
    let mut line = bin_header(ZDATA, [0; 4], 0, &c);
    line.extend_from_slice(&subpacket(b"x", ZCRCW, 0, &c));
    assert_eq!(stored(&feed(&mut zm, &line)), b"x".to_vec());
    // and with 32 again
    let mut line = bin_header(ZDATA, [1, 0, 0, 0], CANFC32, &c);
    line.extend_from_slice(&subpacket(b"y", ZCRCE, CANFC32, &c));
    assert_eq!(stored(&feed(&mut zm, &line)), b"y".to_vec());
}

#[test]
fn offered_names_lose_their_directories() {
    let mut zm = receiver();
    assert_eq!(
        feed(&mut zm, &offer("/etc/../x\\y.txt", 5)),
        vec![Event::RecvOffer { name: "y.txt".to_string(), size: 5 }]
    );
}

#[test]
fn damaged_offer_is_dropped() {
    let c = Crc32::new();
    let mut zm = receiver();
    let mut line = bin_header(ZFILE, [0; 4], 0, &c);
    let mut sp = subpacket(&write_offer("a", 1), ZCRCW, 0, &c);
    sp[0] = b'b';
    line.extend_from_slice(&sp);
    assert_eq!(feed(&mut zm, &line), vec![]);
    // the header is still remembered: the subpacket may come again
    assert_eq!(
        feed(&mut zm, &subpacket(&write_offer("a", 1), ZCRCW, 0, &c)),
        vec![Event::RecvOffer { name: "a".to_string(), size: 1 }]
    );
}

#[test]
fn file_is_received() {
    let c = Crc32::new();
    let data: Vec<u8> = (0..600u32).map(|i| (i * 7 % 256) as u8).collect();
    let mut zm = receiving("f.bin", 600);
    assert_eq!(
        feed(&mut zm, &subpacket(&data[..256], ZCRCG, 0, &c)),
        vec![Event::Store(data[..256].to_vec()), progress("f.bin", 256, 600, "down")]
    );
    assert_eq!(
        feed(&mut zm, &subpacket(&data[256..512], ZCRCQ, 0, &c)),
        vec![
            Event::Store(data[256..512].to_vec()),
            progress("f.bin", 512, 600, "down"),
            Event::Write(hex_header(ZACK, 512u32.to_le_bytes())),
        ]
    );
    let mut line = subpacket(&data[512..], ZCRCE, 0, &c);
    line.extend_from_slice(&hex_header(ZEOF, 600u32.to_le_bytes()));
    assert_eq!(
        feed(&mut zm, &line),
        vec![
            Event::Store(data[512..].to_vec()),
            progress("f.bin", 600, 600, "down"),
            Event::Sync,
            Event::Done { name: "f.bin".to_string(), dir: "down" },
            our_rinit(),
        ]
    );
    // another file may follow, or the end
    assert_eq!(
        feed(&mut zm, &hex_header(ZFIN, [0; 4])),
        vec![Event::Write(hex_header(ZFIN, [0; 4])), Event::Finished]
    );
    assert!(!zm.active());
    // the sender's last word is swallowed
    assert_eq!(feed(&mut zm, b"OO"), vec![]);
    assert_eq!(feed(&mut zm, b"$ "), vec![]);
    assert_eq!(feed(&mut zm, b"OOps"), vec![Event::Forward(b"$ O".to_vec())]);
}

#[test]
fn last_word_is_swallowed_once() {
    let fin = hex_header(ZFIN, [0; 4]);
    for (pieces, shown) in [
        (vec!["OO", "shell$ "], "shel"),
        (vec!["O", "O", "shell$ "], "shel"),
        (vec!["O", "Oshell$ "], "shel"),
        (vec!["OOshell$ "], "shel"),
        (vec!["OOOshell$ "], "Oshel"),
        (vec!["\r\nOOshell$ "], "shel"),
        (vec!["\r", "\nO", "O", "shell$ "], "shel"),
        // one letter, and line ends that no last word follows, are shown
        (vec!["Oshell$ "], "Oshel"),
        (vec!["O", "shell$ "], "Oshel"),
        (vec!["\r\nshell$ "], "\r\nshel"),
        (vec!["\r", "\n", "Oshell$ "], "\r\nOshel"),
        (vec!["\r\n\rOOshell$ "], "\r\n\rOOshel"),
        (vec!["shell$ OO"], "shell$"),
    ] {
        let mut zm = receiver();
        feed(&mut zm, &fin);
        assert!(!zm.active());
        let mut events = Vec::new();
        for piece in pieces {
            events.extend(feed(&mut zm, piece.as_bytes()));
        }
        assert_eq!(forwarded(&events), shown.as_bytes().to_vec());
    }
    // the line end of the header may come late
    for k in 18..fin.len() {
        let mut zm = receiver();
        feed(&mut zm, &fin[..k]);
        assert!(!zm.active());
        assert_eq!(feed(&mut zm, &fin[k..]), vec![]);
        assert_eq!(feed(&mut zm, b"O"), vec![]);
        assert_eq!(forwarded(&feed(&mut zm, b"O\r\nhi")), b"\r".to_vec());
    }
    // a sender hears no such word
    let mut zm = streaming(0, "a", 1);
    let mut out = Vec::new();
    zm.pump(&vec![vec![1]], &mut out);
    feed(&mut zm, &hex_header(ZRINIT, [0; 4]));
    feed(&mut zm, &fin);
    assert!(!zm.active());
    assert_eq!(forwarded(&feed(&mut zm, b"OOps$ ")), b"OOp".to_vec());
}

#[test]
fn data_frame_ends_and_goes_on() {
    let c = Crc32::new();
    let mut zm = receiving("f", 4);
    assert_eq!(
        feed(&mut zm, &subpacket(b"ab", ZCRCW, 0, &c)),
        vec![
            Event::Store(b"ab".to_vec()),
            progress("f", 2, 4, "down"),
            Event::Write(hex_header(ZACK, [2, 0, 0, 0])),
        ]
    );
    // data for another place are refused
    assert_eq!(
        feed(&mut zm, &bin_header(ZDATA, [3, 0, 0, 0], 0, &c)),
        vec![Event::Write(hex_header(ZRPOS, [2, 0, 0, 0]))]
    );
    assert_eq!(
        feed(&mut zm, &hex_header(ZEOF, [4, 0, 0, 0])),
        vec![Event::Write(hex_header(ZRPOS, [2, 0, 0, 0]))]
    );
    let mut line = bin_header(ZDATA, [2, 0, 0, 0], 0, &c);
    line.extend_from_slice(&subpacket(b"cd", ZCRCE, 0, &c));
    assert_eq!(
        feed(&mut zm, &line),
        vec![Event::Store(b"cd".to_vec()), progress("f", 4, 4, "down")]
    );
}

#[test]
fn data_in_any_pieces() {
    let c = Crc32::new();
    let data: Vec<u8> = (0..=255).collect();
    let line = subpacket(&data, ZCRCE, 0, &c);
    for k in 0..=line.len() {
        let mut zm = receiving("f", 256);
        let mut events = feed(&mut zm, &line[..k]);
        assert_eq!(events.is_empty(), k < line.len());
        events.extend(feed(&mut zm, &line[k..]));
        assert_eq!(events, vec![Event::Store(data.clone()), progress("f", 256, 256, "down")]);
    }
}

#[test]
fn flow_control_between_data_is_stripped() {
    let c = Crc32::new();
    let mut line = Vec::new();
    for b in subpacket(b"xyz", ZCRCE, 0, &c) {
        line.push(b);
        if b != ZDLE {
            line.push(0x11);
            line.push(0x93);
        }
    }
    let mut zm = receiving("f", 3);
    assert_eq!(stored(&feed(&mut zm, &line)), b"xyz".to_vec());
    // in pieces too
    for n in 1..line.len() {
        let mut zm = receiving("f", 3);
        let mut events = Vec::new();
        for piece in line.chunks(n) {
            events.extend(feed(&mut zm, piece));
        }
        assert_eq!(events, vec![Event::Store(b"xyz".to_vec()), progress("f", 3, 3, "down")]);
    }
}

#[test]
fn changed_bytes_are_refused() {
    let c = Crc32::new();
    let data = b"precious".to_vec();
    let line = subpacket(&data, ZCRCE, 0, &c);
    for i in 0..data.len() {
        let mut zm = receiving("f", 8);
        let mut bad = line.clone();
        bad[i] ^= 1;
        assert_eq!(feed(&mut zm, &bad), vec![Event::Write(hex_header(ZRPOS, [0; 4]))]);
        // it is sent again
        let mut again = bin_header(ZDATA, [0; 4], 0, &c);
        again.extend_from_slice(&line);
        assert_eq!(stored(&feed(&mut zm, &again)), data);
    }
}

#[test]
fn rubout_escapes_are_data() {
    let c = Crc32::new();
    let mut zm = receiving("f", 2);
    let mut line = vec![ZDLE, b'l', ZDLE, b'm', ZDLE, ZCRCE];
    line.extend_from_slice(&subpacket(&[0x7f, 0xff], ZCRCE, 0, &c)[4..]);
    assert_eq!(stored(&feed(&mut zm, &line)), vec![0x7f, 0xff]);
}

#[test]
fn file_that_cannot_be_created_is_skipped() {
    let mut zm = offered("a", 1);
    let mut out = Vec::new();
    zm.accept_receive("/no/where", Err("denied".to_string()), &mut out);
    assert_eq!(
        out,
        vec![
            Event::Error("cannot create /no/where: denied".to_string()),
            Event::Write(hex_header(ZSKIP, [0; 4])),
        ]
    );
    assert!(zm.active());
    assert!(!zm.awaits_accept());
}

#[test]
fn five_cancels_end_a_transfer() {
    let over = vec![
        Event::Error("remote aborted the transfer".to_string()),
        Event::Finished,
    ];
    let mut zm = receiver();
    assert_eq!(feed(&mut zm, &[CAN; 4]), vec![]);
    assert!(zm.active());
    assert_eq!(feed(&mut zm, &[CAN]), over);
    assert!(!zm.active());

    let mut zm = receiver();
    assert_eq!(feed(&mut zm, &[CAN; 5]), over);
    assert!(!zm.active());

    // in the middle of data too
    let mut zm = receiving("f", 10);
    assert_eq!(feed(&mut zm, b"abc"), vec![]);
    assert_eq!(feed(&mut zm, &[CAN; 5]), over);
    assert!(!zm.active());

    // not in a row
    let mut zm = receiver();
    assert_eq!(feed(&mut zm, &[CAN, CAN, CAN, CAN, 0, CAN]), vec![]);
    assert!(zm.active());
}

#[test]
fn five_cancels_are_heard_everywhere() {
    let c = Crc32::new();
    let over = vec![
        Event::Error("remote aborted the transfer".to_string()),
        Event::Finished,
    ];
    // while the subpacket of an offer is awaited, and in the middle of it
    let head = bin_header(ZFILE, [0; 4], 0, &c);
    let line = offer("a.bin", 77);
    for k in head.len()..line.len() {
        if line[k - 1] == ZDLE {
            continue;
        }
        let mut zm = receiver();
        assert_eq!(feed(&mut zm, &line[..k]), vec![]);
        assert_eq!(feed(&mut zm, &[CAN; 5]), over);
        assert!(!zm.active());
        // the line is the terminal's again, from the fifth one on
        assert_eq!(forwarded(&feed(&mut zm, b"hello")), b"\x18he".to_vec());
    }
    // one by one
    let mut zm = receiver();
    assert_eq!(feed(&mut zm, &line[..head.len() + 2]), vec![]);
    for _ in 0..4 {
        assert_eq!(feed(&mut zm, &[CAN]), vec![]);
    }
    assert_eq!(feed(&mut zm, &[CAN]), over);
    // among the bytes of a header
    for line in [hex_header(ZFIN, [0; 4]), bin_header(ZFIN, [0; 4], 0, &c)] {
        for k in 0..line.len() {
            if k >= 18 || k > 0 && line[k - 1] == ZDLE {
                continue;
            }
            let mut zm = receiver();
            assert_eq!(feed(&mut zm, &line[..k]), vec![]);
            assert_eq!(feed(&mut zm, &[CAN; 5]), over);
            assert!(!zm.active());
        }
    }
    // among file data, their end and their check
    for flags in [0, CANFC32] {
        let line = subpacket(b"ab\x18c", ZCRCW, flags, &c);
        for k in 0..line.len() {
            if k > 0 && line[k - 1] == ZDLE {
                continue;
            }
            let mut zm = receiving("f", 10);
            if flags == CANFC32 {
                feed(&mut zm, &subpacket(b"", ZCRCE, 0, &c));
                assert_eq!(feed(&mut zm, &bin_header(ZDATA, [0; 4], flags, &c)), vec![]);
            }
            assert_eq!(feed(&mut zm, &line[..k]), vec![]);
            assert_eq!(feed(&mut zm, &[CAN; 5]), over);
            assert!(!zm.active());
            // none of them is left
            assert_eq!(forwarded(&feed(&mut zm, b"hello")), b"he".to_vec());
        }
    }
    let mut zm = receiving("f", 10);
    assert_eq!(feed(&mut zm, b"ab"), vec![]);
    assert_eq!(feed(&mut zm, &[CAN; 3]), vec![]);
    assert_eq!(feed(&mut zm, &[CAN; 2]), over);
    // the check is wrong before they are five; they are counted on
    let mut zm = receiving("f", 10);
    assert_eq!(feed(&mut zm, b"ab\x18h"), vec![]);
    assert_eq!(feed(&mut zm, &[CAN; 4]), vec![Event::Write(hex_header(ZRPOS, [0; 4]))]);
    assert_eq!(feed(&mut zm, &[CAN]), over);
    // while a sender waits
    let mut zm = offering(0, "a", 3);
    assert_eq!(feed(&mut zm, &[CAN; 5]), over);
    let mut zm = streaming(0, "a", 3);
    assert_eq!(feed(&mut zm, &[CAN; 5]), over);
    assert!(!zm.needs_pump());
}

#[test]
fn fifth_cancel_is_left_to_the_terminal() {
    let over = vec![
        Event::Error("remote aborted the transfer".to_string()),
        Event::Finished,
    ];
    let mut zm = receiver();
    let mut line = vec![CAN; 5];
    line.extend_from_slice(&[8; 5]);
    assert_eq!(
        feed(&mut zm, &line),
        vec![
            Event::Error("remote aborted the transfer".to_string()),
            Event::Finished,
            Event::Forward(vec![CAN, 8, 8]),
        ]
    );
    // it comes first: what follows it waits for the next bytes
    let mut zm = receiver();
    assert_eq!(feed(&mut zm, &[CAN; 4]), vec![]);
    assert_eq!(feed(&mut zm, b"\x18hello"), over);
    assert!(!zm.active());
    assert_eq!(feed(&mut zm, b""), vec![Event::Forward(b"\x18he".to_vec())]);
    assert_eq!(feed(&mut zm, b"!"), vec![Event::Forward(b"l".to_vec())]);
}

#[test]
fn escaped_escapes() {
    let c = Crc32::new();
    // in a header the pair stands for a byte
    for flags in [0, CANFC32] {
        let line = bin_header(ZSINIT, [0x58, 1, 2, 3], flags, &c);
        let at = line.iter().position(|b| *b == 0x58).unwrap();
        let mut pair = line[..at].to_vec();
        pair.extend_from_slice(&[ZDLE, ZDLE]);
        pair.extend_from_slice(&line[at + 1..]);
        let mut zm = receiver();
        assert_eq!(feed(&mut zm, &pair), vec![Event::Write(hex_header(ZACK, [0; 4]))]);
    }
    // and in the subpacket of an offer
    let line = offer("X", 7);
    let at = bin_header(ZFILE, [0; 4], 0, &c).len();
    assert_eq!(line[at], b'X');
    let mut pair = line[..at].to_vec();
    pair.extend_from_slice(&[ZDLE, ZDLE]);
    pair.extend_from_slice(&line[at + 1..]);
    let mut zm = receiver();
    assert_eq!(
        feed(&mut zm, &pair),
        vec![Event::RecvOffer { name: "X".to_string(), size: 7 }]
    );
    // and in the check of file data
    let mut seen = 0;
    for b in 0x30..0x70u8 {
        for d in 0x30..0x70u8 {
            let line = subpacket(&[b, d], ZCRCE, 0, &c);
            if line.last() == Some(&0x58) && line.len() == 6 {
                let mut pair = line[..5].to_vec();
                pair.extend_from_slice(&[ZDLE, ZDLE]);
                let mut zm = receiving("f", 2);
                assert_eq!(stored(&feed(&mut zm, &pair)), vec![b, d]);
                seen += 1;
            }
        }
    }
    assert!(seen > 0);
    // in file data it is like a fresh escape
    let line = subpacket(&[0x7f], ZCRCE, 0, &c);
    let mut pair = vec![ZDLE, ZDLE, b'l'];
    pair.extend_from_slice(&line[1..]);
    let mut zm = receiving("f", 1);
    assert_eq!(stored(&feed(&mut zm, &pair)), vec![0x7f]);
}

#[test]
fn cancels_are_not_counted_across_headers_and_sessions() {
    // a header lies between
    let mut zm = receiver();
    assert_eq!(feed(&mut zm, &[CAN; 4]), vec![]);
    assert_eq!(
        feed(&mut zm, &hex_header(ZSINIT, [0; 4])),
        vec![Event::Write(hex_header(ZACK, [0; 4]))]
    );
    assert_eq!(feed(&mut zm, &[CAN; 4]), vec![]);
    assert!(zm.active());
    // the session ended in between
    let mut out = Vec::new();
    zm.cancel(&mut out);
    assert!(!zm.active());
    assert_eq!(feed(&mut zm, &hex_header(ZRQINIT, [0; 4])), vec![our_rinit()]);
    assert_eq!(feed(&mut zm, &[CAN; 4]), vec![]);
    assert!(zm.active());
    assert_eq!(
        feed(&mut zm, &[CAN]),
        vec![
            Event::Error("remote aborted the transfer".to_string()),
            Event::Finished,
        ]
    );
}

#[test]
fn remote_abort_headers() {
    for typ in [ZABORT, ZFERR] {
        let mut zm = receiver();
        assert_eq!(
            feed(&mut zm, &hex_header(typ, [0; 4])),
            vec![
                Event::Error("remote aborted the transfer".to_string()),
                Event::Write(hex_header(ZFIN, [0; 4])),
                Event::Finished,
            ]
        );
        assert!(!zm.active());
    }
}

#[test]
fn damaged_binary_header_is_answered() {
    let c = Crc32::new();
    for flags in [0, CANFC32] {
        let mut line = bin_header(ZFIN, [0; 4], flags, &c);
        let last = line.len() - 1;
        line[last] ^= 1;
        let mut zm = receiver();
        assert_eq!(feed(&mut zm, &line), vec![Event::Write(hex_header(ZNAK, [0; 4]))]);
    }
}

#[test]
fn noise_in_a_transfer_is_dropped() {
    let mut zm = receiver();
    let mut line = b"noise \x00\xff".to_vec();
    line.extend_from_slice(&hex_header(ZSINIT, [0; 4]));
    assert_eq!(feed(&mut zm, &line), vec![Event::Write(hex_header(ZACK, [0; 4]))]);
    // a star that starts nothing, a damaged hex header, an unknown encoding
    let mut line = b"*x**\x18B00zz***\x18D".to_vec();
    line.extend_from_slice(&hex_header(ZSINIT, [0; 4]));
    assert_eq!(feed(&mut zm, &line), vec![Event::Write(hex_header(ZACK, [0; 4]))]);
}

#[test]
fn cancel_by_the_user() {
    let mut zm = receiving("f", 10);
    let mut out = Vec::new();
    zm.cancel(&mut out);
    assert_eq!(
        out,
        vec![
            Event::Write(vec![CAN, CAN, CAN, CAN, CAN, 8, 8, 8, 8, 8]),
            Event::Error("transfer cancelled".to_string()),
            Event::Finished,
        ]
    );
    assert!(!zm.active());
    out.clear();
    zm.cancel(&mut out);
    assert_eq!(out, vec![]);
    assert_eq!(forwarded(&feed(&mut zm, b"hello, shell")), b"hello, sh".to_vec());
}

#[test]
fn calls_out_of_turn() {
    let mut zm = Zm::new();
    let mut out = Vec::new();
    zm.accept_receive("/x", Ok(()), &mut out);
    zm.accept_receive("/x", Err("no".to_string()), &mut out);
    zm.start_send(vec!["/x".to_string()], &mut out);
    zm.file_opened(None, None, &mut out);
    zm.file_failed("no", &mut out);
    assert!(!zm.pump(&vec![vec![1]], &mut out));
    zm.cancel(&mut out);
    assert_eq!(out, vec![]);
    assert!(!zm.active());

    let mut zm = sender(0);
    zm.start_send(vec![], &mut out);
    assert_eq!(out, vec![]);
    assert_eq!(zm.file_wanted(), None);
}

#[test]
fn file_is_offered() {
    let c = Crc32::new();
    for flags in [0, CANFC32] {
        let mut zm = sender(flags);
        let mut out = Vec::new();
        zm.start_send(vec!["/home/u/a.txt".to_string()], &mut out);
        assert_eq!(out, vec![]);
        assert_eq!(zm.file_wanted(), Some("/home/u/a.txt".to_string()));
        zm.file_opened(Some("a.txt".to_string()), Some(12), &mut out);
        let mut w = bin_header(ZFILE, [0; 4], flags, &c);
        w.extend_from_slice(&subpacket(b"a.txt\x0012", ZCRCW, flags, &c));
        assert_eq!(out, vec![Event::Write(w)]);
        assert_eq!(zm.file_wanted(), None);
    }
}

#[test]
fn offer_without_name_and_size() {
    let c = Crc32::new();
    let mut zm = sender(0);
    let mut out = Vec::new();
    zm.start_send(vec!["..".to_string()], &mut out);
    zm.file_opened(None, None, &mut out);
    let mut w = bin_header(ZFILE, [0; 4], 0, &c);
    w.extend_from_slice(&subpacket(b"file\x000", ZCRCW, 0, &c));
    assert_eq!(out, vec![Event::Write(w)]);
}

#[test]
fn file_is_pumped() {
    let c = Crc32::new();
    let mut zm = streaming(CANFC32, "a", 5);
    let mut out = Vec::new();
    assert!(zm.pump(&vec![b"ab".to_vec()], &mut out));
    assert_eq!(
        out,
        vec![
            Event::Write(subpacket(b"ab", ZCRCG, CANFC32, &c)),
            progress("a", 2, 5, "up"),
        ]
    );
    out.clear();
    // reads after the end are not used
    assert!(!zm.pump(&vec![b"c".to_vec(), b"de".to_vec(), b"x".to_vec()], &mut out));
    let mut w = subpacket(b"c", ZCRCG, CANFC32, &c);
    w.extend_from_slice(&subpacket(b"de", ZCRCE, CANFC32, &c));
    assert_eq!(
        out,
        vec![
            Event::Write(w),
            progress("a", 5, 5, "up"),
            Event::Write(hex_header(ZEOF, [5, 0, 0, 0])),
        ]
    );
    assert!(!zm.needs_pump());
    // the receiver is ready for the next file; there is none
    assert_eq!(
        feed(&mut zm, &hex_header(ZRINIT, [0, 0, 0, 0x23])),
        vec![
            Event::Done { name: "a".to_string(), dir: "up" },
            Event::Release,
            Event::Write(hex_header(ZFIN, [0; 4])),
        ]
    );
    assert_eq!(
        feed(&mut zm, &hex_header(ZFIN, [0; 4])),
        vec![Event::Write(b"OO".to_vec()), Event::Finished]
    );
    assert!(!zm.active());
}

#[test]
fn at_most_eight_reads_are_used() {
    let mut zm = streaming(0, "a", 100);
    let mut out = Vec::new();
    assert!(zm.pump(&vec![vec![7]; 12], &mut out));
    assert_eq!(out[1], progress("a", 8, 100, "up"));
    out.clear();
    // a read that gave nothing ends the burst
    assert!(zm.pump(&vec![vec![1], vec![], vec![2]], &mut out));
    assert_eq!(out[1], progress("a", 9, 100, "up"));
    out.clear();
    // nothing at all: the file ends here
    let c = Crc32::new();
    let end = vec![
        Event::Write(subpacket(b"", ZCRCE, 0, &c)),
        progress("a", 9, 100, "up"),
        Event::Error("cannot read the rest of a".to_string()),
        Event::Write(hex_header(ZEOF, [9, 0, 0, 0])),
    ];
    assert!(!zm.pump(&vec![], &mut out));
    assert_eq!(out, end);
    assert!(!zm.needs_pump());
    // a first read that gave nothing is the same
    let mut zm = streaming(0, "a", 100);
    out.clear();
    assert!(zm.pump(&vec![vec![7; 9]], &mut out));
    out.clear();
    assert!(!zm.pump(&vec![vec![], vec![1]], &mut out));
    assert_eq!(out, end);
}

#[test]
fn pumping_a_file_that_was_cut_short_ends() {
    let mut zm = streaming(0, "a", 100_000);
    let mut left: usize = 20_000;
    let mut calls = 0;
    let mut out = Vec::new();
    while zm.needs_pump() {
        let mut reads = Vec::new();
        for _ in 0..8 {
            let n = left.min(1024);
            reads.push(vec![0; n]);
            left -= n;
        }
        zm.pump(&reads, &mut out);
        calls += 1;
        assert!(calls <= 4);
    }
    assert!(out.contains(&Event::Error("cannot read the rest of a".to_string())));
    assert_eq!(out.last(), Some(&Event::Write(hex_header(ZEOF, 20_000u32.to_le_bytes()))));
}

#[test]
fn empty_file_ends_at_once() {
    let mut zm = streaming(0, "e", 0);
    let mut out = Vec::new();
    assert!(!zm.pump(&vec![vec![]], &mut out));
    let c = Crc32::new();
    assert_eq!(
        out,
        vec![
            Event::Write(subpacket(b"", ZCRCE, 0, &c)),
            progress("e", 0, 0, "up"),
            Event::Write(hex_header(ZEOF, [0; 4])),
        ]
    );
}

#[test]
fn receiver_moves_the_sender() {
    let c = Crc32::new();
    let mut zm = streaming(0, "a", 5);
    let mut out = Vec::new();
    assert!(!zm.pump(&vec![b"abcde".to_vec()], &mut out));
    // even after the end
    assert_eq!(
        feed(&mut zm, &hex_header(ZRPOS, [2, 0, 0, 0])),
        vec![Event::Seek(2), Event::Write(bin_header(ZDATA, [2, 0, 0, 0], 0, &c))]
    );
    out.clear();
    assert!(!zm.pump(&vec![b"cde".to_vec()], &mut out));
    assert_eq!(out[1], progress("a", 5, 5, "up"));
}

#[test]
fn files_are_sent_in_order() {
    let mut zm = sender(0);
    let mut out = Vec::new();
    zm.start_send(vec!["/1".to_string(), "/2".to_string(), "/3".to_string()], &mut out);
    assert_eq!(zm.file_wanted(), Some("/1".to_string()));
    zm.file_failed("gone", &mut out);
    assert_eq!(out, vec![Event::Error("cannot open /1: gone".to_string())]);
    assert_eq!(zm.file_wanted(), Some("/2".to_string()));
    zm.file_opened(Some("2".to_string()), Some(1), &mut out);
    // the receiver does not want it
    assert_eq!(
        feed(&mut zm, &hex_header(ZSKIP, [0; 4])),
        vec![Event::Error("remote skipped 2".to_string()), Event::Release]
    );
    assert_eq!(zm.file_wanted(), Some("/3".to_string()));
    out.clear();
    zm.file_failed("gone too", &mut out);
    assert_eq!(
        out,
        vec![
            Event::Error("cannot open /3: gone too".to_string()),
            Event::Write(hex_header(ZFIN, [0; 4])),
        ]
    );
    assert_eq!(zm.file_wanted(), None);
}

#[test]
fn offer_is_repeated_on_request() {
    let mut zm = offering(0, "a", 3);
    assert_eq!(feed(&mut zm, &hex_header(ZNAK, [0; 4])), vec![]);
    assert_eq!(zm.file_wanted(), Some("/home/u/a".to_string()));
    let mut out = Vec::new();
    zm.file_opened(Some("a".to_string()), Some(3), &mut out);
    assert_eq!(out, vec![Event::Write(offer("a", 3))]);
}

#[test]
fn bytes_wait_while_a_file_is_opened() {
    let c = Crc32::new();
    let mut zm = offering(0, "a", 3);
    // a second request comes with the first
    let mut line = hex_header(ZNAK, [0; 4]);
    line.extend_from_slice(&hex_header(ZRPOS, [1, 0, 0, 0]));
    assert_eq!(feed(&mut zm, &line), vec![]);
    assert_eq!(feed(&mut zm, b""), vec![]);
    let mut out = Vec::new();
    zm.file_opened(Some("a".to_string()), Some(3), &mut out);
    assert_eq!(
        out,
        vec![
            Event::Write(offer("a", 3)),
            Event::Seek(1),
            Event::Write(bin_header(ZDATA, [1, 0, 0, 0], 0, &c)),
        ]
    );
    assert!(zm.needs_pump());
}

#[test]
fn capabilities_are_taken_anew() {
    let c = Crc32::new();
    let mut zm = offering(0, "a", 3);
    assert_eq!(feed(&mut zm, &hex_header(ZRINIT, CANFC32.to_be_bytes())), vec![]);
    assert_eq!(
        feed(&mut zm, &hex_header(ZRPOS, [0; 4])),
        vec![Event::Seek(0), Event::Write(bin_header(ZDATA, [0; 4], CANFC32, &c))]
    );
}

#[test]
fn unknown_headers_do_nothing() {
    let mut zm = receiver();
    for typ in [ZACK, 13, 200] {
        assert_eq!(feed(&mut zm, &hex_header(typ, [1, 2, 3, 4])), vec![]);
    }
    // out of a transfer only invitations count
    let mut zm = Zm::new();
    for typ in [ZACK, ZRPOS, ZEOF, ZDATA, ZSKIP, ZNAK, ZFIN] {
        assert_eq!(feed(&mut zm, &hex_header(typ, [0; 4])), vec![]);
        assert!(!zm.active());
    }
}

#[test]
fn cancelled_offer_gives_the_line_back() {
    let c = Crc32::new();
    let mut zm = receiver();
    assert_eq!(feed(&mut zm, &bin_header(ZFILE, [0; 4], 0, &c)), vec![]);
    let mut out = Vec::new();
    zm.cancel(&mut out);
    assert!(!zm.active());
    assert_eq!(feed(&mut zm, b"hello"), vec![Event::Forward(b"he".to_vec())]);
    // a new session is not disturbed by the old offer
    assert_eq!(
        feed(&mut zm, &hex_header(ZRQINIT, [0; 4])),
        vec![Event::Forward(b"llo".to_vec()), our_rinit()]
    );
    assert_eq!(
        feed(&mut zm, &hex_header(ZFIN, [0; 4])),
        vec![Event::Write(hex_header(ZFIN, [0; 4])), Event::Finished]
    );
}

/// What was written, in order.
fn written(events: &[Event]) -> Vec<Vec<u8>> {
    let mut all = Vec::new();
    for e in events {
        if let Event::Write(w) = e {
            all.push(w.clone());
        }
    }
    all
}

/// Sends `data` as a file of `size` bytes from one new engine to another, in
/// pieces of at most `cut` bytes. Gives what was stored, and the errors of the
/// sender.
fn exchange(data: &[u8], size: u64, cut: usize) -> (Vec<u8>, Vec<String>) {
    let mut r = Zm::new();
    let mut s = Zm::new();
    // the invitation and its answer, as the engines give them
    let answer = written(&feed(&mut r, &hex_header(ZRQINIT, [0; 4])));
    assert_eq!(answer.len(), 1);
    assert_eq!(feed(&mut s, &answer[0]), vec![Event::SendReady]);
    let mut from_sender = Vec::new();
    s.start_send(vec!["/d/big.bin".to_string()], &mut from_sender);
    assert_eq!(s.file_wanted(), Some("/d/big.bin".to_string()));
    s.file_opened(Some("big.bin".to_string()), Some(size), &mut from_sender);
    let mut file = Vec::new();
    let mut errors = Vec::new();
    let mut done = Vec::new();
    let mut pos: usize = 0;
    let mut rounds = 0;
    while (s.active() || r.active()) && rounds < 1000 {
        rounds += 1;
        let mut to_sender = Vec::new();
        for e in from_sender.drain(..) {
            match e {
                Event::Write(w) => {
                    for piece in w.chunks(cut) {
                        for a in feed(&mut r, piece) {
                            match a {
                                Event::Write(w) => to_sender.push(w),
                                Event::Store(b) => file.extend_from_slice(&b),
                                Event::RecvOffer { name, size: n } => {
                                    assert_eq!((name.as_str(), n), ("big.bin", size));
                                    let mut accepted = Vec::new();
                                    r.accept_receive("/tmp/big.bin", Ok(()), &mut accepted);
                                    to_sender.extend(written(&accepted));
                                }
                                Event::Done { dir, .. } => done.push(dir),
                                Event::Forward(_) => panic!("bytes of a transfer are shown"),
                                _ => {}
                            }
                        }
                    }
                }
                Event::Seek(p) => pos = p as usize,
                Event::Error(e) => errors.push(e),
                Event::Done { dir, .. } => done.push(dir),
                _ => {}
            }
        }
        for w in to_sender {
            for piece in w.chunks(cut) {
                s.feed(piece, &mut from_sender);
            }
        }
        for e in &from_sender {
            if let Event::Seek(p) = e {
                pos = *p as usize;
            }
        }
        while s.needs_pump() {
            let mut reads = Vec::new();
            for _ in 0..8 {
                let n = (data.len() - pos).min(1024);
                reads.push(data[pos..pos + n].to_vec());
                pos += n;
                if n == 0 {
                    break;
                }
            }
            s.pump(&reads, &mut from_sender);
        }
    }
    // the last word is swallowed as well
    for w in written(&from_sender) {
        assert_eq!(feed(&mut r, &w), vec![]);
    }
    assert_eq!(done, vec!["down", "up"]);
    assert!(!s.active() && !r.active());
    assert_eq!(forwarded(&feed(&mut r, b"shell$ ")), b"shel".to_vec());
    (file, errors)
}

#[test]
fn file_goes_from_engine_to_engine() {
    let data: Vec<u8> = (0..20_000u32).map(|i| (i * i % 251) as u8).collect();
    for cut in [1, 7, 512, 100_000] {
        assert_eq!(exchange(&data, 20_000, cut), (data.clone(), vec![]));
    }
}

#[test]
fn empty_file_goes_from_engine_to_engine() {
    for cut in [1, 512] {
        assert_eq!(exchange(b"", 0, cut), (vec![], vec![]));
    }
}

#[test]
fn file_that_was_cut_short_goes_as_far_as_it_can_be_read() {
    let data = vec![b'*'; 3000];
    assert_eq!(
        exchange(&data, 9000, 512),
        (data, vec!["cannot read the rest of big.bin".to_string()])
    );
}

#[test]
fn earlier_events_are_kept() {
    let mut zm = Zm::new();
    let mut out = vec![Event::Error("before".to_string())];
    zm.feed(&hex_header(ZRQINIT, [0; 4]), &mut out);
    zm.feed(&offer("a", 1), &mut out);
    zm.accept_receive("/x", Ok(()), &mut out);
    zm.cancel(&mut out);
    assert_eq!(out[0], Event::Error("before".to_string()));
    assert_eq!(out[1], our_rinit());
    assert_eq!(out[2], Event::RecvOffer { name: "a".to_string(), size: 1 });
    assert_eq!(out.last(), Some(&Event::Finished));
    assert_eq!(out.len(), 7);
}

#[test]
fn next_file_is_wanted_after_one_is_done() {
    let mut zm = sender(0);
    let mut out = Vec::new();
    zm.start_send(vec!["/1".to_string(), "/2".to_string()], &mut out);
    zm.file_opened(Some("1".to_string()), Some(1), &mut out);
    zm.feed(&hex_header(ZRPOS, [0; 4]), &mut out);
    assert!(!zm.pump(&vec![vec![9]], &mut out));
    assert_eq!(
        feed(&mut zm, &hex_header(ZRINIT, [0; 4])),
        vec![Event::Done { name: "1".to_string(), dir: "up" }, Event::Release]
    );
    assert_eq!(zm.file_wanted(), Some("/2".to_string()));
}

#[test]
fn list_of_files_that_are_all_gone() {
    let mut zm = sender(0);
    let mut out = Vec::new();
    zm.start_send(vec!["/1".to_string(), "/2".to_string()], &mut out);
    zm.file_failed("a", &mut out);
    zm.file_failed("b", &mut out);
    assert_eq!(
        out,
        vec![
            Event::Error("cannot open /1: a".to_string()),
            Event::Error("cannot open /2: b".to_string()),
            Event::Write(hex_header(ZFIN, [0; 4])),
        ]
    );
    assert_eq!(zm.file_wanted(), None);
    assert!(zm.active());
}
