//! The engine: ZMODEM on the byte stream of a pty.
//!
//! The engine is fed the bytes that come from the pty. What it wants written
//! back, shown, stored or told to the user comes out as a list of events.
//! Files are opened, created and read outside: while [`Zm::file_wanted`] names
//! a file, the outcome of opening it is awaited; [`Zm::accept_receive`] takes
//! the outcome of creating one; [`Zm::pump`] takes what was read.

use vstd::prelude::*;

use crate::bytes::{u16_be, u32_be, u32_le};
use crate::crc::{crc16, Crc32};
use crate::decode::{flow, take_raw, take_values, unquote, Raw};
use crate::event::{emit, Event};
use crate::frame::{
    bin_header, check, hex_header, subpacket, Header, CAN, CANFC32, CANFDX, CANOVIO, ZABORT, ZACK,
    ZBIN, ZBIN32, ZCRCE, ZCRCG, ZCRCQ, ZCRCW, ZDATA, ZDLE, ZEOF, ZFERR, ZFILE, ZFIN, ZHEX, ZNAK,
    ZPAD, ZRINIT, ZRPOS, ZRQINIT, ZSINIT, ZSKIP,
};
use crate::hex::parse_hex;
use crate::protocol::{BinView, Run, Session, State, BURST_READS};
use crate::text::{read_offer, write_offer};

verus! {

/// A ZMODEM engine.
pub struct Zm {
    state: State,
    buf: Vec<u8>,
    crc32: Crc32,
    // receive side
    recv_open: bool,
    recv_name: String,
    recv_size: u64,
    recv_pos: u64,
    // subpacket decode state
    sp_data: Vec<u8>,
    sp_esc: bool,
    sp_end: Option<u8>,
    sp_crc: Vec<u8>,
    sp_wide: bool,
    in_data_frame: bool,
    pending_zfile: bool,
    // send side
    peer_flags: u32,
    files: Vec<String>,
    file_idx: usize,
    resume: bool,
    send_open: bool,
    send_name: String,
    send_size: u64,
    send_pos: u64,
    can_count: u8,
    farewell: bool,
}

/// The texts of a list of strings.
pub open spec fn texts_of(s: Seq<String>) -> Seq<Seq<char>> {
    s.map_values(|t: String| t@)
}

/// The contents of a list of byte vectors.
pub open spec fn reads_of(s: Seq<Vec<u8>>) -> Seq<Seq<u8>> {
    s.map_values(|t: Vec<u8>| t@)
}

impl View for Zm {
    type V = Session;

    closed spec fn view(&self) -> Session {
        Session {
            state: self.state,
            buf: self.buf@,
            recv_open: self.recv_open,
            recv_name: self.recv_name@,
            recv_size: self.recv_size,
            recv_pos: self.recv_pos,
            sp_data: self.sp_data@,
            sp_esc: self.sp_esc,
            sp_end: self.sp_end,
            sp_crc: self.sp_crc@,
            sp_wide: self.sp_wide,
            in_data_frame: self.in_data_frame,
            pending_zfile: self.pending_zfile,
            peer_flags: self.peer_flags,
            files: texts_of(self.files@),
            file_idx: self.file_idx as int,
            resume: self.resume,
            send_open: self.send_open,
            send_name: self.send_name@,
            send_size: self.send_size,
            send_pos: self.send_pos,
            can_count: self.can_count,
            farewell: self.farewell,
        }
    }
}

/// The run that an engine and an event list make.
pub open spec fn run_of(zm: Zm, out: Seq<Event>) -> Run {
    Run { z: zm@, out: crate::event::events_of(out) }
}

/// Splits the first `n` bytes off `buf`.
fn take_front(buf: &mut Vec<u8>, n: usize) -> (front: Vec<u8>)
    requires
        n <= old(buf)@.len(),
    ensures
        front@ == old(buf)@.take(n as int),
        final(buf)@ == old(buf)@.skip(n as int),
{
    let mut rest = buf.split_off(n);
    assert(rest@ =~= old(buf)@.skip(n as int));
    assert(buf@ =~= old(buf)@.take(n as int));
    std::mem::swap(buf, &mut rest);
    rest
}

/// Whether `b` may follow a hex header.
fn ends_line(b: u8) -> (r: bool)
    ensures
        r == crate::protocol::is_eol(b),
{
    b == 0x0d || b == 0x0a || b == 0x8d || b == 0x8a || b == 0x11 || b == 0x13
}

/// Drops the line end characters that `buf` begins with.
fn eat_eol(buf: &mut Vec<u8>)
    ensures
        final(buf)@ == crate::protocol::after_eol(old(buf)@),
{
    let mut i: usize = 0;
    assert(buf@.skip(0) =~= buf@);
    while i < buf.len() && ends_line(buf[i])
        invariant
            i <= buf.len(),
            buf@ == old(buf)@,
            crate::protocol::after_eol(buf@) == crate::protocol::after_eol(buf@.skip(i as int)),
        decreases buf.len() - i,
    {
        assert(buf@.skip(i as int).skip(1) =~= buf@.skip(i + 1));
        i = i + 1;
    }
    let _ = take_front(buf, i);
}

/// Reads the hex header whose signature `buf` begins with.
fn read_hex_header(buf: &Vec<u8>) -> (r: Option<Header>)
    requires
        buf@.len() >= 18,
    ensures
        match (r, crate::protocol::hex_header_in(buf@)) {
            (Some(h), Some(v)) => h@ == v,
            (None, None) => true,
            _ => false,
        },
{
    match parse_hex(vstd::slice::slice_subrange(buf.as_slice(), 4, 18)) {
        Some(five) => {
            let sum = u16_be(crc16(vstd::slice::slice_subrange(five.as_slice(), 0, 5)));
            assert(five@.subrange(0, 5) =~= five@.take(5));
            if sum[0] == five[5] && sum[1] == five[6] {
                let h = Header {
                    enc: ZHEX,
                    typ: five[0],
                    data: [five[1], five[2], five[3], five[4]],
                };
                assert(five@.skip(5) =~= sum@);
                assert(h@.data =~= five@.subrange(1, 5));
                Some(h)
            } else {
                assert(five@.skip(5)[0] == five@[5] && five@.skip(5)[1] == five@[6]);
                None
            }
        },
        None => None,
    }
}

/// What the start of a binary header at the front of the buffer makes. The
/// places are those where the header ends.
enum Bin {
    Partial,
    Damaged(usize),
    Whole(Header, usize),
}

/// Reads the binary header whose start `buf` begins with.
fn read_bin_header(buf: &Vec<u8>, crc32: &Crc32) -> (r: Bin)
    requires
        buf@.len() >= 3,
    ensures
        match (r, crate::protocol::bin_header_in(buf@.skip(3), buf@[2])) {
            (Bin::Partial, BinView::Partial) => true,
            (Bin::Damaged(e), BinView::Damaged(n)) => e == 3 + n && e <= buf@.len(),
            (Bin::Whole(h, e), BinView::Whole(v, n)) => h@ == v && e == 3 + n && e <= buf@.len(),
            _ => false,
        },
{
    let enc = buf[2];
    let need: usize = if enc == ZBIN32 {
        9
    } else {
        7
    };
    proof {
        crate::decode::lemma_values_bound(buf@.skip(3), need as nat);
    }
    match take_values(buf.as_slice(), 3, need) {
        None => Bin::Partial,
        Some((vals, used)) => {
            let sum = check(
                vstd::slice::slice_subrange(vals.as_slice(), 0, 5),
                enc == ZBIN32,
                crc32,
            );
            let ok = same_bytes(
                vstd::slice::slice_subrange(vals.as_slice(), 5, vals.len()),
                sum.as_slice(),
            );
            proof {
                assert(vals@.subrange(0, 5) =~= vals@.take(5));
                assert(vals@.subrange(5, vals@.len() as int) =~= vals@.skip(5));
            }
            if ok {
                let h = Header { enc, typ: vals[0], data: [vals[1], vals[2], vals[3], vals[4]] };
                assert(h@.data =~= vals@.subrange(1, 5));
                Bin::Whole(h, used)
            } else {
                Bin::Damaged(used)
            }
        },
    }
}

/// The first place of `s` where a signature stands.
fn find_signature(s: &[u8]) -> (r: Option<usize>)
    ensures
        match (r, crate::protocol::find_signature(s@)) {
            (Some(p), Some(q)) => p == q,
            (None, None) => true,
            _ => false,
        },
{
    let mut i: usize = 0;
    proof {
        crate::protocol::lemma_find_signature(s@);
    }
    while i < s.len() && s.len() - i >= 4
        invariant
            i <= s.len(),
            forall|q: int| q < i ==> !#[trigger] crate::protocol::signature_at(s@, q),
            match crate::protocol::find_signature(s@) {
                Some(p) => crate::protocol::signature_at(s@, p) && forall|q: int|
                    q < p ==> !#[trigger] crate::protocol::signature_at(s@, q),
                None => forall|q: int| !#[trigger] crate::protocol::signature_at(s@, q),
            },
        decreases s.len() - i,
    {
        if s[i] == ZPAD && s[i + 1] == ZPAD && s[i + 2] == ZDLE && s[i + 3] == ZHEX {
            assert(crate::protocol::signature_at(s@, i as int));
            return Some(i);
        }
        i = i + 1;
    }
    None
}

/// The first place of `s` where five cancel characters stand.
fn find_cancels(s: &[u8]) -> (r: Option<usize>)
    ensures
        match (r, crate::protocol::find_cancels(s@)) {
            (Some(p), Some(q)) => p == q && p + 5 <= s@.len(),
            (None, None) => true,
            _ => false,
        },
{
    let mut i: usize = 0;
    proof {
        crate::protocol::lemma_find_cancels(s@);
    }
    while i < s.len() && s.len() - i >= 5
        invariant
            i <= s.len(),
            forall|q: int| q < i ==> !#[trigger] crate::protocol::cancels_at(s@, q),
            match crate::protocol::find_cancels(s@) {
                Some(p) => crate::protocol::cancels_at(s@, p) && forall|q: int|
                    q < p ==> !#[trigger] crate::protocol::cancels_at(s@, q),
                None => forall|q: int| !#[trigger] crate::protocol::cancels_at(s@, q),
            },
        decreases s.len() - i,
    {
        if s[i] == CAN && s[i + 1] == CAN && s[i + 2] == CAN && s[i + 3] == CAN && s[i + 4] == CAN {
            assert(crate::protocol::cancels_at(s@, i as int));
            return Some(i);
        }
        i = i + 1;
    }
    None
}

/// Tells equal byte sequences.
fn same_bytes(a: &[u8], b: &[u8]) -> (r: bool)
    ensures
        r == (a@ == b@),
{
    if a.len() != b.len() {
        return false;
    }
    let mut i: usize = 0;
    while i < a.len()
        invariant
            i <= a.len(),
            a@.len() == b@.len(),
            forall|j: int| 0 <= j < i ==> a@[j] == b@[j],
        decreases a.len() - i,
    {
        if a[i] != b[i] {
            return false;
        }
        i = i + 1;
    }
    assert(a@ =~= b@);
    true
}

impl Zm {
    /// An engine without a transfer.
    pub fn new() -> (zm: Zm)
        ensures
            zm@ == crate::protocol::fresh(),
            zm@.wf(),
    {
        let zm = Zm {
            state: State::Idle,
            buf: Vec::new(),
            crc32: Crc32::new(),
            recv_open: false,
            recv_name: String::new(),
            recv_size: 0,
            recv_pos: 0,
            sp_data: Vec::new(),
            sp_esc: false,
            sp_end: None,
            sp_crc: Vec::new(),
            sp_wide: false,
            in_data_frame: false,
            pending_zfile: false,
            peer_flags: 0,
            files: Vec::new(),
            file_idx: 0,
            resume: false,
            send_open: false,
            send_name: String::new(),
            send_size: 0,
            send_pos: 0,
            can_count: 0,
            farewell: false,
        };
        assert(zm@.files =~= Seq::<Seq<char>>::empty());
        zm
    }

    /// A transfer is on.
    pub fn active(&self) -> (r: bool)
        ensures
            r == (self@.state != State::Idle),
    {
        self.state != State::Idle
    }

    /// File data are to be read and given to [`Zm::pump`].
    pub fn needs_pump(&self) -> (r: bool)
        ensures
            r == (self@.state == State::Streaming),
    {
        self.state == State::Streaming
    }

    /// The user is to choose a place for an offered file.
    pub fn awaits_accept(&self) -> (r: bool)
        ensures
            r == (self@.state == State::RecvWaitAccept),
    {
        self.state == State::RecvWaitAccept
    }

    /// The file that is to be opened next.
    pub fn file_wanted(&self) -> (r: Option<String>)
        requires
            self@.wf(),
        ensures
            self@.state == State::SendOpening ==> r is Some && r->0@
                == self@.files[self@.file_idx],
            self@.state != State::SendOpening ==> r is None,
    {
        if self.state == State::SendOpening {
            Some(self.files[self.file_idx].clone())
        } else {
            None
        }
    }

    fn send(typ: u8, data: [u8; 4], out: &mut Vec<Event>)
        ensures
            crate::event::events_of(final(out)@) == crate::event::events_of(old(out)@).push(
                crate::event::EventView::Write(crate::frame::hex_header_of(typ, data@)),
            ),
    {
        let w = hex_header(typ, data);
        emit(out, Event::Write(w));
    }

    fn sp_reset(&mut self)
        ensures
            final(self)@ == old(self)@.sp_cleared(),
    {
        self.sp_data.clear();
        self.sp_esc = false;
        self.sp_end = None;
        self.sp_crc.clear();
    }

    fn reset(&mut self, out: &mut Vec<Event>)
        ensures
            run_of(*final(self), final(out)@) == run_of(*old(self), old(out)@).reset(),
    {
        self.state = State::Idle;
        self.recv_open = false;
        self.send_open = false;
        self.files.clear();
        assert(texts_of(self.files@) =~= Seq::<Seq<char>>::empty());
        self.in_data_frame = false;
        self.pending_zfile = false;
        self.can_count = 0;
        self.farewell = false;
        self.sp_reset();
        emit(out, Event::Finished);
    }

    /// Ends the session, because the remote side did so in the first `n`
    /// buffered bytes.
    fn abort(&mut self, n: usize, out: &mut Vec<Event>)
        requires
            n <= old(self)@.buf.len(),
        ensures
            run_of(*final(self), final(out)@) == run_of(*old(self), old(out)@).aborted(n as int),
    {
        let _ = take_front(&mut self.buf, n);
        emit(out, Event::Error("remote aborted the transfer".to_owned()));
        self.reset(out);
    }

    /// Ends the session if five cancel characters are in the buffer and begin
    /// in its first `n` bytes; tells whether they do.
    fn check_cancels(&mut self, n: usize, out: &mut Vec<Event>) -> (r: bool)
        ensures
            r == crate::protocol::cut_off(old(self)@.buf, n as int),
            r ==> run_of(*final(self), final(out)@) == run_of(*old(self), old(out)@).cancelled(),
            !r ==> *final(self) == *old(self) && final(out)@ == old(out)@,
    {
        proof {
            reveal(Run::cancelled);
        }
        match find_cancels(self.buf.as_slice()) {
            Some(p) => {
                if p < n {
                    // the fifth one is left
                    assert(p + 5 <= self.buf.len());
                    self.abort(p + 4, out);
                    true
                } else {
                    false
                }
            },
            None => false,
        }
    }

    /// Asks for the next file of the list, or closes the session after the
    /// last one.
    fn send_next_file(&mut self, resume: bool, out: &mut Vec<Event>)
        ensures
            run_of(*final(self), final(out)@) == run_of(*old(self), old(out)@).next_file(resume),
    {
        if self.file_idx < self.files.len() {
            self.state = State::SendOpening;
            self.resume = resume;
        } else {
            // no more files
            Self::send(ZFIN, [0, 0, 0, 0], out);
            self.state = State::FinWait;
        }
    }

    /// Gives up the file being sent and asks for the next one.
    fn skip_file(&mut self, out: &mut Vec<Event>)
        requires
            old(self)@.file_idx < old(self)@.files.len(),
        ensures
            run_of(*final(self), final(out)@) == run_of(*old(self), old(out)@).skip_file(),
    {
        assert(self@.files.len() == self.files.len());
        self.send_open = false;
        self.file_idx = self.file_idx + 1;
        emit(out, Event::Release);
        self.send_next_file(true, out);
    }

    /// Decodes the file subpacket `raw` that the buffer begins with, and takes
    /// it out. A damaged one is dropped.
    fn take_file_subpacket(&mut self, raw: Raw) -> (r: Option<(String, u64)>)
        requires
            raw.used <= old(self)@.buf.len(),
        ensures
            final(self)@ == old(self)@.past(raw.used as int),
            r is Some == crate::protocol::intact(raw@, old(self)@.sp_wide),
            r matches Some((name, size)) ==> (name@, size) == crate::text::offer_of(raw@.data),
    {
        let mut body = raw.data.clone();
        assert(body@ =~= raw.data@);
        body.push(raw.end);
        let sum = check(body.as_slice(), self.sp_wide, &self.crc32);
        let ok = same_bytes(raw.crc.as_slice(), sum.as_slice());
        let _ = take_front(&mut self.buf, raw.used);
        if ok {
            Some(read_offer(raw.data.as_slice()))
        } else {
            None
        }
    }

    /// The offered file is known: the user is asked for a place.
    fn offer(&mut self, name: String, size: u64, out: &mut Vec<Event>)
        ensures
            run_of(*final(self), final(out)@) == run_of(*old(self), old(out)@).to(
                Session {
                    recv_name: name@,
                    recv_size: size,
                    state: State::RecvWaitAccept,
                    ..old(self)@
                },
            ).emit(crate::event::EventView::RecvOffer { name: name@, size }),
    {
        self.recv_name = name.clone();
        self.recv_size = size;
        self.state = State::RecvWaitAccept;
        emit(out, Event::RecvOffer { name, size });
    }

    /// A file header came: its subpacket may be in the buffer.
    fn pending_zfile_check(&mut self, out: &mut Vec<Event>)
        requires
            old(self)@.pending_zfile,
        ensures
            run_of(*final(self), final(out)@) == run_of(*old(self), old(out)@).on_pending(),
    {
        let len: usize = if self.sp_wide {
            4
        } else {
            2
        };
        proof {
            reveal(Run::on_pending);
            reveal(Run::cancelled);
            crate::decode::lemma_raw_bound(self@.buf, len as nat);
            crate::protocol::lemma_find_cancels(self@.buf);
        }
        match take_raw(self.buf.as_slice(), len) {
            None => {
                let n = self.buf.len();
                let _ = self.check_cancels(n, out);
            },
            Some(raw) => {
                if self.check_cancels(raw.used, out) {
                    return ;
                }
                if let Some((name, size)) = self.take_file_subpacket(raw) {
                    self.pending_zfile = false;
                    self.offer(name, size, out);
                }
            },
        }
    }

    fn on_file(&mut self, wide: bool, out: &mut Vec<Event>)
        ensures
            run_of(*final(self), final(out)@) == run_of(*old(self), old(out)@).on_file(wide),
    {
        // the file name subpacket follows, now or later
        self.in_data_frame = false;
        self.sp_wide = wide;
        self.state = State::RecvWaitFile;
        self.pending_zfile = true;
        self.pending_zfile_check(out);
    }

    /// Tells the remote side where to go on.
    fn ask_pos(&self, out: &mut Vec<Event>)
        ensures
            run_of(*self, final(out)@) == run_of(*self, old(out)@).ask_pos(),
    {
        Self::send(ZRPOS, u32_le(self.recv_pos as u32), out);
    }

    fn on_rinit(&mut self, flags: u32, out: &mut Vec<Event>)
        requires
            old(self)@.wf(),
        ensures
            run_of(*final(self), final(out)@) == run_of(*old(self), old(out)@).on_rinit(flags),
    {
        match self.state {
            State::Idle => {
                self.peer_flags = flags;
                self.state = State::SendWaitFiles;
                emit(out, Event::SendReady);
            },
            State::SendWaitFiles | State::SendWaitPos | State::Streaming => {
                self.peer_flags = flags;
            },
            State::SendWaitEofAck => {
                self.peer_flags = flags;
                emit(out, Event::Done { name: self.send_name.clone(), dir: "up" });
                self.skip_file(out);
            },
            _ => {},
        }
    }

    fn on_data(&mut self, pos: u64, wide: bool, out: &mut Vec<Event>)
        ensures
            run_of(*final(self), final(out)@) == run_of(*old(self), old(out)@).on_data(pos, wide),
    {
        if self.state == State::Receiving {
            if pos != self.recv_pos {
                self.ask_pos(out);
            } else {
                self.in_data_frame = true;
                self.sp_wide = wide;
                self.sp_reset();
            }
        }
    }

    fn on_eof(&mut self, pos: u64, out: &mut Vec<Event>)
        ensures
            run_of(*final(self), final(out)@) == run_of(*old(self), old(out)@).on_eof(pos),
    {
        if self.state == State::Receiving {
            if pos == self.recv_pos {
                if self.recv_open {
                    emit(out, Event::Sync);
                }
                self.recv_open = false;
                emit(out, Event::Done { name: self.recv_name.clone(), dir: "down" });
                self.state = State::RecvWaitNext;
                Self::send(ZRINIT, u32_be(CANFDX | CANOVIO | CANFC32), out);
            } else {
                self.ask_pos(out);
            }
        }
    }

    fn on_rpos(&mut self, pos: u64, out: &mut Vec<Event>)
        ensures
            run_of(*final(self), final(out)@) == run_of(*old(self), old(out)@).on_rpos(pos),
    {
        let sends = match self.state {
            State::SendWaitPos | State::Streaming | State::SendWaitEofAck => true,
            _ => false,
        };
        if sends && self.send_open {
            emit(out, Event::Seek(pos));
            self.send_pos = pos;
            let w = bin_header(ZDATA, u32_le(pos as u32), self.peer_flags, &self.crc32);
            emit(out, Event::Write(w));
            self.state = State::Streaming;
        }
    }

    fn on_skip(&mut self, out: &mut Vec<Event>)
        requires
            old(self)@.wf(),
        ensures
            run_of(*final(self), final(out)@) == run_of(*old(self), old(out)@).on_skip(),
    {
        if self.state == State::SendWaitPos || self.state == State::Streaming {
            let text = "remote skipped ".to_owned().concat(self.send_name.as_str());
            emit(out, Event::Error(text));
            self.skip_file(out);
        }
    }

    fn on_fin(&mut self, out: &mut Vec<Event>)
        ensures
            run_of(*final(self), final(out)@) == run_of(*old(self), old(out)@).on_fin(),
    {
        match self.state {
            State::FinWait => {
                emit(out, Event::Write(vec![0x4f, 0x4f]));
                self.reset(out);
            },
            State::RecvWaitNext | State::RecvWaitFile => {
                Self::send(ZFIN, [0, 0, 0, 0], out);
                self.reset(out);
                // the sender answers with "OO", which is swallowed
                self.farewell = true;
            },
            _ => {},
        }
    }

    fn on_rqinit(&mut self, out: &mut Vec<Event>)
        ensures
            run_of(*final(self), final(out)@) == run_of(*old(self), old(out)@).on_rqinit(),
    {
        self.peer_flags = 0;
        self.state = State::RecvWaitFile;
        Self::send(ZRINIT, u32_be(CANFDX | CANOVIO | CANFC32), out);
    }

    fn on_nak(&mut self, out: &mut Vec<Event>)
        ensures
            run_of(*final(self), final(out)@) == run_of(*old(self), old(out)@).on_nak(),
    {
        // offer the same file again
        if self.state == State::SendWaitPos && self.file_idx < self.files.len() {
            self.send_next_file(true, out);
        }
    }

    fn on_abort(&mut self, out: &mut Vec<Event>)
        ensures
            run_of(*final(self), final(out)@) == run_of(*old(self), old(out)@).on_abort(),
    {
        emit(out, Event::Error("remote aborted the transfer".to_owned()));
        Self::send(ZFIN, [0, 0, 0, 0], out);
        self.reset(out);
    }

    /// Does what the header `h` calls for.
    #[verifier::rlimit(40)]
    fn heard(&mut self, h: Header, out: &mut Vec<Event>)
        requires
            old(self)@.wf(),
        ensures
            run_of(*final(self), final(out)@) == run_of(*old(self), old(out)@).heard(h@),
    {
        proof {
            reveal(Run::heard);
        }
        let wide = h.enc == ZBIN32;
        if h.typ == ZRQINIT {
            // remote sz wants to send us files
            self.on_rqinit(out);
        } else if h.typ == ZRINIT {
            self.on_rinit(h.flags(), out);
        } else if h.typ == ZSINIT {
            // the attention string is not used; just acknowledge
            Self::send(ZACK, [0, 0, 0, 0], out);
        } else if h.typ == ZFILE {
            self.on_file(wide, out);
        } else if h.typ == ZDATA {
            self.on_data(h.pos() as u64, wide, out);
        } else if h.typ == ZEOF {
            self.on_eof(h.pos() as u64, out);
        } else if h.typ == ZRPOS {
            self.on_rpos(h.pos() as u64, out);
        } else if h.typ == ZSKIP {
            self.on_skip(out);
        } else if h.typ == ZNAK {
            self.on_nak(out);
        } else if h.typ == ZFIN {
            self.on_fin(out);
        } else if h.typ == ZABORT || h.typ == ZFERR {
            self.on_abort(out);
        }
    }

    fn on_header(&mut self, h: Header, out: &mut Vec<Event>)
        requires
            old(self)@.wf(),
        ensures
            run_of(*final(self), final(out)@) == run_of(*old(self), old(out)@).on_header(h@),
            final(self)@.wf(),
    {
        proof {
            crate::protocol::lemma_on_header(run_of(*self, out@), h@);
        }
        self.can_count = 0;
        self.farewell = false;
        self.heard(h, out);
    }

    #[verifier::rlimit(40)]
    fn finish_subpacket(&mut self, out: &mut Vec<Event>)
        ensures
            run_of(*final(self), final(out)@) == run_of(*old(self), old(out)@).finish_subpacket(),
    {
        proof {
            reveal(Run::finish_subpacket);
        }
        let end = match self.sp_end {
            Some(e) => e,
            None => ZCRCE,
        };
        let mut body = self.sp_data.clone();
        assert(body@ =~= self.sp_data@);
        body.push(end);
        let sum = check(body.as_slice(), self.sp_wide, &self.crc32);
        if !same_bytes(self.sp_crc.as_slice(), sum.as_slice()) {
            self.sp_reset();
            self.in_data_frame = false;
            self.ask_pos(out);
            return ;
        }
        let n = self.sp_data.len() as u64;
        if self.recv_open {
            let data = self.sp_data.clone();
            assert(data@ =~= self.sp_data@);
            emit(out, Event::Store(data));
        }
        self.recv_pos = self.recv_pos.wrapping_add(n);
        emit(
            out,
            Event::Progress {
                name: self.recv_name.clone(),
                done: self.recv_pos,
                total: self.recv_size,
                dir: "down",
            },
        );
        self.sp_reset();
        if end == ZCRCQ || end == ZCRCW {
            Self::send(ZACK, u32_le(self.recv_pos as u32), out);
        }
        if end == ZCRCE || end == ZCRCW {
            // a header comes next
            self.in_data_frame = false;
        }
    }

    /// Reads the byte `b` of a subpacket's check.
    fn crc_byte(&mut self, b: u8)
        ensures
            final(self)@ == old(self)@.crc_byte(b),
    {
        if self.sp_esc {
            self.sp_esc = false;
            self.sp_crc.push(unquote(b));
        } else if b == ZDLE {
            self.sp_esc = true;
        } else if !flow(b) {
            self.sp_crc.push(b);
        }
    }

    /// Reads the byte `b` of a subpacket's data.
    fn data_byte(&mut self, b: u8)
        ensures
            final(self)@ == old(self)@.data_byte(b),
    {
        if self.sp_esc {
            if b == ZCRCE || b == ZCRCG || b == ZCRCQ || b == ZCRCW {
                self.sp_esc = false;
                self.sp_end = Some(b);
            } else if b != CAN {
                self.sp_esc = false;
                self.sp_data.push(unquote(b));
            }
        } else if b == ZDLE {
            self.sp_esc = true;
        } else if !flow(b) {
            self.sp_data.push(b);
        }
    }

    /// Reads the byte `b` of a subpacket.
    fn sp_byte(&mut self, b: u8)
        requires
            old(self)@.can_count < 5,
        ensures
            final(self)@ == old(self)@.sp_took(b),
    {
        self.can_count = if b == CAN {
            self.can_count + 1
        } else {
            0
        };
        if self.sp_end.is_some() {
            self.crc_byte(b);
        } else {
            self.data_byte(b);
        }
    }

    /// Whether the cancel characters from the place `from` of the buffer on
    /// make five with those counted before.
    fn fifth_due(&self, from: usize) -> (r: bool)
        requires
            self@.can_count < 5,
            from <= self@.buf.len(),
        ensures
            r == self@.past(from as int).fifth_due(),
    {
        proof {
            reveal(Session::fifth_due);
        }
        let n: usize = 5 - self.can_count as usize;
        if self.buf.len() - from < n {
            return false;
        }
        let mut k: usize = 0;
        while k < n
            invariant
                k <= n,
                n == 5 - self@.can_count,
                from + n <= self.buf.len(),
                forall|i: int| 0 <= i < k ==> #[trigger] self@.past(from as int).buf[i] == CAN,
            decreases n - k,
        {
            if self.buf[from + k] != CAN {
                proof {
                    reveal(Session::fifth_due);
                }
                assert(self@.past(from as int).buf[k as int] != CAN);
                return false;
            }
            k = k + 1;
        }
        true
    }

    /// Receiving: decodes escaped file data up to the end of a subpacket.
    #[verifier::spinoff_prover]
    #[verifier::rlimit(90)]
    fn step_data(&mut self, out: &mut Vec<Event>)
        requires
            old(self)@.wf(),
            old(self)@.state == State::Receiving,
        ensures
            run_of(*final(self), final(out)@) == run_of(*old(self), old(out)@).step_data(),
            final(self)@.wf(),
    {
        let ghost start = run_of(*self, out@);
        proof {
            crate::protocol::lemma_step_data(start);
            assert(self@.buf.skip(0) =~= self@.buf);
        }
        let len: usize = if self.sp_wide {
            4
        } else {
            2
        };
        let mut i: usize = 0;
        while i < self.buf.len()
            invariant
                i <= self.buf@.len(),
                self@.can_count < 5,
                start == run_of(*old(self), old(out)@),
                start.step_data().z.wf(),
                len == crate::protocol::crc_len(self@.sp_wide),
                run_of(*self, out@).to(self@.past(i as int)).step_data() == start.step_data(),
            decreases self.buf@.len() - i,
        {
            let b = self.buf[i];
            let ghost cur = run_of(*self, out@).to(self@.past(i as int));
            proof {
                crate::protocol::lemma_data_byte(cur);
                crate::protocol::lemma_fifth_due(cur.z);
            }
            assert(cur.z.buf[0] == b);
            assert(cur.z.buf.skip(1) =~= self@.buf.skip(i + 1));
            if self.fifth_due(i) {
                let n: usize = 5 - self.can_count as usize;
                assert(self@.buf.skip(i as int).skip(n as int) =~= self@.buf.skip(i + n));
                self.abort(i + n, out);
                return ;
            }
            let ended = self.sp_end.is_some();
            self.sp_byte(b);
            i = i + 1;
            assert(self@.past(i as int) =~= cur.z.sp_byte());
            if ended && self.sp_crc.len() >= len {
                let _ = take_front(&mut self.buf, i);
                self.finish_subpacket(out);
                return ;
            }
        }
        assert(self@.buf.skip(i as int) =~= Seq::<u8>::empty());
        self.buf.clear();
        proof {
            reveal(Run::step_data);
        }
    }

    /// Takes the hex header `h`, which the buffer begins with, out of it.
    fn take_hex(&mut self, h: Header, out: &mut Vec<Event>)
        requires
            old(self)@.wf(),
            old(self)@.buf.len() >= 18,
        ensures
            run_of(*final(self), final(out)@) == run_of(*old(self), old(out)@).take_hex(h@),
            final(self)@.wf(),
    {
        let _ = take_front(&mut self.buf, 18);
        eat_eol(&mut self.buf);
        self.on_header(h, out);
    }

    /// In a transfer: parses a binary header.
    fn step_bin(&mut self, out: &mut Vec<Event>)
        requires
            old(self)@.wf(),
            old(self)@.buf.len() >= 3,
        ensures
            run_of(*final(self), final(out)@) == run_of(*old(self), old(out)@).step_bin(),
            final(self)@.wf(),
    {
        proof {
            reveal(Run::step_bin);
            crate::protocol::lemma_step_bin(run_of(*self, out@));
            crate::protocol::lemma_no_cancels(run_of(*self, out@));
        }
        match read_bin_header(&self.buf, &self.crc32) {
            Bin::Partial => {
                let n = self.buf.len();
                let _ = self.check_cancels(n, out);
            },
            Bin::Damaged(used) => {
                if !self.check_cancels(used, out) {
                    let _ = take_front(&mut self.buf, used);
                    self.can_count = 0;
                    Self::send(ZNAK, [0, 0, 0, 0], out);
                }
            },
            Bin::Whole(h, used) => {
                if !self.check_cancels(used, out) {
                    let _ = take_front(&mut self.buf, used);
                    self.on_header(h, out);
                }
            },
        }
    }

    /// Drops the first buffered byte, which is no cancel character.
    fn drop_byte(&mut self)
        requires
            old(self)@.buf.len() > 0,
        ensures
            final(self)@ == old(self)@.dropped(),
    {
        self.can_count = 0;
        let _ = take_front(&mut self.buf, 1);
    }

    /// In a transfer: parses the next header, hex or binary.
    fn step_header(&mut self, out: &mut Vec<Event>)
        requires
            old(self)@.wf(),
        ensures
            run_of(*final(self), final(out)@) == run_of(*old(self), old(out)@).step_header(),
            final(self)@.wf(),
    {
        proof {
            reveal(Run::step_header);
            crate::protocol::lemma_step_header(run_of(*self, out@));
        }
        if self.buf.len() < 3 {
            return ;
        }
        // hex: * * ZDLE B ...    binary: * ZDLE A/C ...
        if self.buf[1] == ZPAD {
            if self.buf[2] != ZDLE {
                self.drop_byte();
                return ;
            }
            if self.buf.len() < 4 {
                return ;
            }
            if self.buf[3] != ZHEX {
                self.drop_byte();
                return ;
            }
            if self.check_cancels(18, out) {
                return ;
            }
            if self.buf.len() < 18 {
                return ;
            }
            match read_hex_header(&self.buf) {
                Some(h) => self.take_hex(h, out),
                None => self.drop_byte(),
            }
            return ;
        }
        if self.buf[1] != ZDLE || (self.buf[2] != ZBIN && self.buf[2] != ZBIN32) {
            self.drop_byte();
            return ;
        }
        self.step_bin(out);
    }

    /// In a transfer: drops line noise up to the next header, then parses it.
    #[verifier::rlimit(40)]
    fn step_frame(&mut self, out: &mut Vec<Event>)
        requires
            old(self)@.wf(),
            old(self)@.state != State::Idle,
        ensures
            run_of(*final(self), final(out)@) == run_of(*old(self), old(out)@).step_frame(),
            final(self)@.wf(),
    {
        let ghost start = run_of(*self, out@);
        while self.buf.len() > 0 && self.buf[0] != ZPAD
            invariant
                start == run_of(*old(self), old(out)@),
                self@.wf(),
                self@.state != State::Idle,
                run_of(*self, out@).step_frame() == start.step_frame(),
            decreases self.buf@.len(),
        {
            proof {
                crate::protocol::lemma_frame_byte(run_of(*self, out@));
            }
            let n: u8 = if self.buf[0] == CAN {
                self.can_count + 1
            } else {
                0
            };
            if n >= 5 {
                self.abort(0, out);
                return ;
            }
            self.can_count = n;
            let _ = take_front(&mut self.buf, 1);
        }
        proof {
            crate::protocol::lemma_frame_start(run_of(*self, out@));
        }
        self.step_header(out);
    }

    /// Idle: parses the hex header whose signature the buffer begins with.
    fn step_signature(&mut self, out: &mut Vec<Event>)
        requires
            old(self)@.wf(),
        ensures
            run_of(*final(self), final(out)@) == run_of(*old(self), old(out)@).step_signature(),
            final(self)@.wf(),
    {
        proof {
            reveal(Run::step_signature);
        }
        // signature and 14 digits
        if self.buf.len() < 18 {
            return ;
        }
        match read_hex_header(&self.buf) {
            Some(h) => self.take_hex(h, out),
            None => {
                // no valid header: forward the '*' and move on
                let fwd = take_front(&mut self.buf, 1);
                emit(out, Event::Forward(fwd));
            },
        }
    }

    /// Takes the sender's last word from the buffer, if it is there.
    fn eat_farewell(&mut self)
        ensures
            final(self)@ == old(self)@.after_farewell(),
    {
        if !self.farewell {
            return ;
        }
        let len = self.buf.len();
        let n: usize = if len == 0 || !ends_line(self.buf[0]) {
            0
        } else if len == 1 || !ends_line(self.buf[1]) {
            1
        } else {
            2
        };
        if len == n || (len == n + 1 && self.buf[n] == 0x4f) {
            return ;
        }
        if len >= n + 2 && self.buf[n] == 0x4f && self.buf[n + 1] == 0x4f {
            let _ = take_front(&mut self.buf, n + 2);
        }
        self.farewell = false;
    }

    /// Idle: forwards everything up to a possible signature; parses a hex
    /// header when one fully arrives.
    fn step_idle(&mut self, out: &mut Vec<Event>)
        requires
            old(self)@.wf(),
        ensures
            run_of(*final(self), final(out)@) == run_of(*old(self), old(out)@).step_idle(),
            final(self)@.wf(),
    {
        proof {
            reveal(Run::step_terminal);
        }
        self.eat_farewell();
        proof {
            crate::protocol::lemma_find_signature(self@.buf);
        }
        match find_signature(self.buf.as_slice()) {
            None => {
                // keep a small tail in case the signature is split
                if self.buf.len() > 3 {
                    let n = self.buf.len() - 3;
                    let fwd = take_front(&mut self.buf, n);
                    emit(out, Event::Forward(fwd));
                }
            },
            Some(p) => {
                if p > 0 {
                    let fwd = take_front(&mut self.buf, p);
                    emit(out, Event::Forward(fwd));
                }
                self.step_signature(out);
            },
        }
    }

    fn step(&mut self, out: &mut Vec<Event>)
        requires
            old(self)@.wf(),
        ensures
            run_of(*final(self), final(out)@) == run_of(*old(self), old(out)@).step(),
            final(self)@.wf(),
    {
        proof {
            reveal(Run::step);
            reveal(Run::dispatch);
        }
        if self.state == State::SendOpening {
            return ;
        }
        if self.pending_zfile {
            proof {
                crate::protocol::lemma_on_pending(run_of(*self, out@));
            }
            self.pending_zfile_check(out);
            if self.pending_zfile {
                return ;
            }
        }
        match self.state {
            State::Idle => self.step_idle(out),
            State::Receiving => {
                if self.in_data_frame {
                    self.step_data(out)
                } else {
                    self.step_frame(out)
                }
            },
            _ => self.step_frame(out),
        }
    }

    /// Steps on the buffered bytes as long as some are used up.
    fn settle(&mut self, out: &mut Vec<Event>)
        requires
            old(self)@.wf(),
        ensures
            run_of(*final(self), final(out)@) == run_of(*old(self), old(out)@).settle(),
            final(self)@.wf(),
    {
        proof {
            reveal(Run::settle);
        }
        let ghost start = run_of(*self, out@);
        loop
            invariant_except_break
                start == run_of(*old(self), old(out)@),
                self@.wf(),
                run_of(*self, out@).steps() == start.steps(),
            ensures
                self@.wf(),
                run_of(*self, out@) == start.steps(),
            decreases self.buf@.len(),
        {
            let before = self.buf.len();
            let ghost cur = run_of(*self, out@);
            proof {
                reveal(Run::steps);
                crate::protocol::lemma_step(cur);
            }
            self.step(out);
            assert(self@.buf.len() <= before);
            if self.buf.len() == before {
                break ;
            }
        }
        // don't let junk accumulate forever while idle
        if self.state == State::Idle && self.buf.len() > 8192 {
            let n = self.buf.len() - 64;
            let fwd = take_front(&mut self.buf, n);
            emit(out, Event::Forward(fwd));
        }
    }

    /// Takes bytes that came from the pty. While a file is being opened they
    /// are kept; otherwise they are used up as far as they go.
    pub fn feed(&mut self, data: &[u8], out: &mut Vec<Event>)
        requires
            old(self)@.wf(),
        ensures
            run_of(*final(self), final(out)@) == run_of(*old(self), old(out)@).feed(data@),
            final(self)@.wf(),
    {
        self.buf.extend_from_slice(data);
        assert(self.buf@ =~= old(self).buf@ + data@);
        if self.state == State::SendOpening {
            self.resume = true;
            return ;
        }
        self.settle(out);
    }

    /// Takes the outcome of creating the file `path`, which the user chose
    /// for the offered file: nothing, or why it could not be created.
    pub fn accept_receive(
        &mut self,
        path: &str,
        created: Result<(), String>,
        out: &mut Vec<Event>,
    )
        requires
            old(self)@.wf(),
        ensures
            created is Ok ==> run_of(*final(self), final(out)@) == run_of(
                *old(self),
                old(out)@,
            ).accepted(),
            created matches Err(e) ==> run_of(*final(self), final(out)@) == run_of(
                *old(self),
                old(out)@,
            ).not_accepted(path@, e@),
            final(self)@.wf(),
    {
        if self.state != State::RecvWaitAccept {
            return ;
        }
        match created {
            Ok(_) => {
                self.recv_open = true;
                self.recv_pos = 0;
                self.state = State::Receiving;
                Self::send(ZRPOS, u32_le(0), out);
            },
            Err(e) => {
                let text = "cannot create ".to_owned().concat(path).concat(": ").concat(e.as_str());
                emit(out, Event::Error(text));
                Self::send(ZSKIP, [0, 0, 0, 0], out);
                self.state = State::RecvWaitNext;
            },
        }
    }

    /// Takes the files that the user chose to send. The first one is then to
    /// be opened.
    pub fn start_send(&mut self, paths: Vec<String>, out: &mut Vec<Event>)
        requires
            old(self)@.wf(),
        ensures
            run_of(*final(self), final(out)@) == run_of(*old(self), old(out)@).start_send(
                texts_of(paths@),
            ),
            final(self)@.wf(),
    {
        if self.state != State::SendWaitFiles || paths.is_empty() {
            return ;
        }
        self.files = paths;
        self.file_idx = 0;
        self.send_next_file(false, out);
    }

    /// Takes the news that the file wanted is open: its name and its size, as
    /// far as they are known.
    pub fn file_opened(&mut self, name: Option<String>, size: Option<u64>, out: &mut Vec<Event>)
        requires
            old(self)@.wf(),
        ensures
            run_of(*final(self), final(out)@) == run_of(*old(self), old(out)@).opened(
                match name {
                    Some(n) => Some(n@),
                    None => None,
                },
                size,
            ),
            final(self)@.wf(),
    {
        if self.state != State::SendOpening {
            return ;
        }
        self.send_size = match size {
            Some(n) => n,
            None => 0,
        };
        self.send_name = match name {
            Some(n) => n,
            None => "file".to_owned(),
        };
        self.send_open = true;
        self.send_pos = 0;
        let offer = write_offer(self.send_name.as_str(), self.send_size);
        let mut w = bin_header(ZFILE, [0, 0, 0, 0], self.peer_flags, &self.crc32);
        let mut sp = subpacket(offer.as_slice(), ZCRCW, self.peer_flags, &self.crc32);
        w.append(&mut sp);
        emit(out, Event::Write(w));
        self.state = State::SendWaitPos;
        if self.resume {
            self.settle(out);
        }
    }

    /// Takes the news that the file wanted could not be opened, and why.
    pub fn file_failed(&mut self, reason: &str, out: &mut Vec<Event>)
        requires
            old(self)@.wf(),
        ensures
            run_of(*final(self), final(out)@) == run_of(*old(self), old(out)@).not_opened(reason@),
            final(self)@.wf(),
    {
        if self.state != State::SendOpening {
            return ;
        }
        assert(self@.files.len() == self.files.len());
        let text = "cannot open ".to_owned().concat(self.files[self.file_idx].as_str()).concat(
            ": ",
        ).concat(reason);
        emit(out, Event::Error(text));
        self.file_idx = self.file_idx + 1;
        let resume = self.resume;
        self.send_next_file(resume, out);
        if self.state != State::SendOpening && self.resume {
            self.settle(out);
        }
    }

    /// Aborts whatever is in flight.
    pub fn cancel(&mut self, out: &mut Vec<Event>)
        requires
            old(self)@.wf(),
        ensures
            run_of(*final(self), final(out)@) == run_of(*old(self), old(out)@).cancel(),
            final(self)@.wf(),
    {
        if self.active() {
            emit(out, Event::Write(vec![CAN, CAN, CAN, CAN, CAN, 8, 8, 8, 8, 8]));
            emit(out, Event::Error("transfer cancelled".to_owned()));
            self.reset(out);
        }
    }

    /// Sends what was read of the file, `reads` being what successive reads
    /// gave. At most [`BURST_READS`] are used, and none after one that gave
    /// nothing or reached the size. Call it again, with what is read next,
    /// until it returns false. If already the first read gave nothing, the
    /// file is at its end: below its size that is told as an error.
    #[verifier::rlimit(40)]
    pub fn pump(&mut self, reads: &Vec<Vec<u8>>, out: &mut Vec<Event>) -> (more: bool)
        requires
            old(self)@.wf(),
        ensures
            run_of(*final(self), final(out)@) == run_of(*old(self), old(out)@).pump(
                reads_of(reads@),
            ),
            more == (old(self)@.state == State::Streaming && final(self)@.state
                == State::Streaming),
            final(self)@.wf(),
    {
        if self.state != State::Streaming {
            return false;
        }
        if !self.send_open {
            return false;
        }
        let ghost rs = reads_of(reads@);
        let mut burst: Vec<u8> = Vec::new();
        let mut k: usize = 0;
        assert(rs.skip(0) =~= rs);
        while k < BURST_READS && k < reads.len() && reads[k].len() > 0
            invariant_except_break
                k <= 8,
                k <= reads.len(),
                rs == reads_of(reads@),
                ({
                    let (e, b) = crate::protocol::burst(
                        rs.skip(k as int),
                        self@.send_pos,
                        self@.send_size,
                        self@.peer_flags,
                        (8 - k) as nat,
                    );
                    crate::protocol::burst(
                        rs,
                        old(self)@.send_pos,
                        old(self)@.send_size,
                        old(self)@.peer_flags,
                        8,
                    ) == (e, burst@ + b)
                }),
                self@ == (Session { send_pos: self@.send_pos, ..old(self)@ }),
            ensures
                self@ == (Session { send_pos: self@.send_pos, ..old(self)@ }),
                crate::protocol::burst(
                    rs,
                    old(self)@.send_pos,
                    old(self)@.send_size,
                    old(self)@.peer_flags,
                    8,
                ) == (self@.send_pos, burst@),
            decreases 8 - k,
        {
            let ghost rest = rs.skip(k as int);
            assert(rest[0] == reads@[k as int]@);
            assert(rest.skip(1) =~= rs.skip(k + 1));
            let ghost before = burst@;
            self.send_pos = self.send_pos.wrapping_add(reads[k].len() as u64);
            let end = if self.send_pos >= self.send_size {
                ZCRCE
            } else {
                ZCRCG
            };
            let mut sp = subpacket(reads[k].as_slice(), end, self.peer_flags, &self.crc32);
            burst.append(&mut sp);
            if end == ZCRCE {
                break ;
            }
            k = k + 1;
        }
        let finished = self.send_pos >= self.send_size;
        let nothing = burst.is_empty();
        if nothing {
            // no data: end the frame
            let none: Vec<u8> = Vec::new();
            assert(none@ =~= Seq::<u8>::empty());
            burst = subpacket(none.as_slice(), ZCRCE, self.peer_flags, &self.crc32);
        }
        emit(out, Event::Write(burst));
        emit(
            out,
            Event::Progress {
                name: self.send_name.clone(),
                done: self.send_pos,
                total: self.send_size,
                dir: "up",
            },
        );
        if nothing && !finished {
            let text = "cannot read the rest of ".to_owned().concat(self.send_name.as_str());
            emit(out, Event::Error(text));
        }
        if finished || nothing {
            Self::send(ZEOF, u32_le(self.send_pos as u32), out);
            self.state = State::SendWaitEofAck;
            return false;
        }
        true
    }
}

} // verus!
