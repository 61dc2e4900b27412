//! The protocol as a transition system on mathematical values.
//!
//! A [`Run`] is a session together with the events it has caused so far. Each
//! function below says what a run becomes when something happens: a header
//! arrives, a byte of file data arrives, a file could be opened or not. The
//! engine's contracts are stated over these functions.

use vstd::prelude::*;

use crate::decode::RawView;
use crate::event::EventView;
use crate::frame::{
    HeaderView, CAN, CANFC32, CANFDX, CANOVIO, ZABORT, ZACK, ZBIN, ZBIN32, ZCRCE, ZCRCG, ZCRCQ,
    ZCRCW, ZDATA, ZDLE, ZEOF, ZFERR, ZFILE, ZFIN, ZHEX, ZNAK, ZPAD, ZRINIT, ZRPOS, ZRQINIT, ZSINIT,
    ZSKIP,
};

verus! {

/// How many reads of a file make a burst at most.
pub const BURST_READS: usize = 8;

/// How many bytes of a file one read asks for.
pub const READ_LEN: usize = 1024;

/// Where a session stands.
#[derive(Clone, Copy, PartialEq, Eq, Structural)]
pub enum State {
    Idle,
    /// we sent ZRINIT after ZRQINIT; waiting for the ZFILE frame
    RecvWaitFile,
    /// ZFILE parsed, user has not chosen a path yet
    RecvWaitAccept,
    /// receiving ZDATA subpackets into the open file
    Receiving,
    /// got ZEOF, sent ZRINIT; expecting another ZFILE or ZFIN
    RecvWaitNext,
    /// remote rz announced ZRINIT; waiting for the user to pick files
    SendWaitFiles,
    /// waiting for the next file of the list to be opened
    SendOpening,
    /// sent ZFILE; waiting for ZRPOS to start data
    SendWaitPos,
    /// streaming ZDATA subpackets (pumped)
    Streaming,
    /// sent ZEOF; waiting for the receiver's ZRINIT
    SendWaitEofAck,
    /// sent ZFIN; waiting for peer ZFIN
    FinWait,
}

/// A transfer session.
#[verifier::ext_equal]
pub struct Session {
    pub state: State,
    /// bytes of the line that are not used up yet
    pub buf: Seq<u8>,
    // receive side
    pub recv_open: bool,
    pub recv_name: Seq<char>,
    pub recv_size: u64,
    pub recv_pos: u64,
    // the subpacket that is being received
    pub sp_data: Seq<u8>,
    pub sp_esc: bool,
    pub sp_end: Option<u8>,
    pub sp_crc: Seq<u8>,
    /// subpackets have 32-bit checks, as the header before them says
    pub sp_wide: bool,
    pub in_data_frame: bool,
    /// a ZFILE header came, its subpacket did not yet
    pub pending_zfile: bool,
    // send side
    pub peer_flags: u32,
    pub files: Seq<Seq<char>>,
    pub file_idx: int,
    /// the bytes in `buf` are due once the next file is open
    pub resume: bool,
    pub send_open: bool,
    pub send_name: Seq<char>,
    pub send_size: u64,
    pub send_pos: u64,
    /// how many cancel characters came last, one after the other
    pub can_count: u8,
    /// the sender's last word may still come
    pub farewell: bool,
}

/// A session and the events it has caused.
#[verifier::ext_equal]
pub struct Run {
    pub z: Session,
    pub out: Seq<EventView>,
}

/// The session before anything happened.
pub open spec fn fresh() -> Session {
    Session {
        state: State::Idle,
        buf: Seq::empty(),
        recv_open: false,
        recv_name: Seq::empty(),
        recv_size: 0,
        recv_pos: 0,
        sp_data: Seq::empty(),
        sp_esc: false,
        sp_end: None,
        sp_crc: Seq::empty(),
        sp_wide: false,
        in_data_frame: false,
        pending_zfile: false,
        peer_flags: 0,
        files: Seq::empty(),
        file_idx: 0,
        resume: false,
        send_open: false,
        send_name: Seq::empty(),
        send_size: 0,
        send_pos: 0,
        can_count: 0,
        farewell: false,
    }
}

/// Four zero bytes, the data of a header that carries none.
pub open spec fn zeros() -> Seq<u8> {
    seq![0u8, 0, 0, 0]
}

/// The capabilities this side announces as a receiver.
pub open spec fn our_flags() -> Seq<u8> {
    crate::bytes::be32(CANFDX | CANOVIO | CANFC32)
}

/// A position as a header carries it: its low 32 bits.
pub open spec fn pos_data(pos: u64) -> Seq<u8> {
    crate::bytes::le32(pos as u32)
}

/// The position `n` bytes after `pos`, in 64-bit arithmetic.
pub open spec fn advance(pos: u64, n: nat) -> u64 {
    ((pos + n) % 0x1_0000_0000_0000_0000) as u64
}

/// The number of cancel characters in a row after the byte `b`, when there were
/// `c` before it.
pub open spec fn cancels_after(c: u8, b: u8) -> int {
    if b == CAN {
        c + 1
    } else {
        0
    }
}

/// The number of check bytes of a subpacket.
pub open spec fn crc_len(wide: bool) -> nat {
    if wide {
        4
    } else {
        2
    }
}

/// A character that may follow a hex header.
pub open spec fn is_eol(b: u8) -> bool {
    b == 0x0d || b == 0x0a || b == 0x8d || b == 0x8a || b == 0x11 || b == 0x13
}

/// `s` without the line end characters it begins with.
pub open spec fn after_eol(s: Seq<u8>) -> Seq<u8>
    decreases s.len(),
{
    if s.len() > 0 && is_eol(s[0]) {
        after_eol(s.skip(1))
    } else {
        s
    }
}

/// How many characters of the line before the sender's last word `s` begins
/// with: they are two, and those that came with the header were dropped.
pub open spec fn late_line_end(s: Seq<u8>) -> int {
    if s.len() == 0 || !is_eol(s[0]) {
        0
    } else if s.len() == 1 || !is_eol(s[1]) {
        1
    } else {
        2
    }
}

/// `s` begins with the sender's last word, the letter O twice.
pub open spec fn word_whole(s: Seq<u8>) -> bool {
    let n = late_line_end(s);
    s.len() >= n + 2 && s[n] == 0x4f && s[n + 1] == 0x4f
}

/// `s` may become the sender's last word.
pub open spec fn word_begun(s: Seq<u8>) -> bool {
    let n = late_line_end(s);
    s.len() == n || (s.len() == n + 1 && s[n] == 0x4f)
}

/// The four bytes that a hex header begins with stand at the place `p` of `s`.
pub open spec fn signature_at(s: Seq<u8>, p: int) -> bool {
    &&& 0 <= p
    &&& p + 4 <= s.len()
    &&& s[p] == ZPAD
    &&& s[p + 1] == ZPAD
    &&& s[p + 2] == ZDLE
    &&& s[p + 3] == ZHEX
}

/// The first place of `s` where the signature stands.
pub open spec fn find_signature(s: Seq<u8>) -> Option<int>
    decreases s.len(),
{
    if s.len() < 4 {
        None
    } else if signature_at(s, 0) {
        Some(0)
    } else {
        match find_signature(s.skip(1)) {
            Some(p) => Some(p + 1),
            None => None,
        }
    }
}

/// Five cancel characters stand at the place `p` of `s`.
pub open spec fn cancels_at(s: Seq<u8>, p: int) -> bool {
    &&& 0 <= p
    &&& p + 5 <= s.len()
    &&& s[p] == CAN
    &&& s[p + 1] == CAN
    &&& s[p + 2] == CAN
    &&& s[p + 3] == CAN
    &&& s[p + 4] == CAN
}

/// The first place of `s` where five cancel characters stand.
pub open spec fn find_cancels(s: Seq<u8>) -> Option<int>
    decreases s.len(),
{
    if s.len() < 5 {
        None
    } else if cancels_at(s, 0) {
        Some(0)
    } else {
        match find_cancels(s.skip(1)) {
            Some(p) => Some(p + 1),
            None => None,
        }
    }
}

/// Five cancel characters stand in `s` and begin before the place `n`.
pub open spec fn cut_off(s: Seq<u8>, n: int) -> bool {
    find_cancels(s) matches Some(p) && p < n
}

/// The header that the digits after a signature spell; `None` if some byte is
/// no digit or the check is wrong.
pub open spec fn hex_header_in(s: Seq<u8>) -> Option<HeaderView> {
    match crate::hex::hex7(s.subrange(4, 18)) {
        Some(v) => if v.skip(5) == crate::frame::check_of(v.take(5), false) {
            Some(HeaderView { enc: ZHEX, typ: v[0], data: v.subrange(1, 5) })
        } else {
            None
        },
        None => None,
    }
}

/// How many bytes a binary header of this encoding stands for.
pub open spec fn bin_len(enc: u8) -> nat {
    if enc == ZBIN32 {
        9
    } else {
        7
    }
}

/// What the escaped bytes `s` after the start of a binary header make.
pub enum BinView {
    /// the header is not complete
    Partial,
    /// a header of this many bytes with a wrong check
    Damaged(nat),
    /// a header of this many bytes
    Whole(HeaderView, nat),
}

pub open spec fn bin_header_in(s: Seq<u8>, enc: u8) -> BinView {
    match crate::decode::values_of(s, bin_len(enc)) {
        None => BinView::Partial,
        Some((v, n)) => if v.skip(5) == crate::frame::check_of(v.take(5), enc == ZBIN32) {
            BinView::Whole(HeaderView { enc, typ: v[0], data: v.subrange(1, 5) }, n)
        } else {
            BinView::Damaged(n)
        },
    }
}

/// The subpacket's check bytes are those of its data and terminator.
pub open spec fn intact(r: RawView, wide: bool) -> bool {
    r.crc == crate::frame::check_of(r.data.push(r.end), wide)
}

impl Session {
    /// What holds in every session: while a file is being sent or is about to
    /// be, the list has it; while one is being sent or received, it is open. A
    /// file subpacket is awaited only where a file is, and the sender's last
    /// word only after a session. A subpacket whose check is complete is
    /// finished at once. Fewer than five cancel characters have been counted.
    pub open spec fn wf(self) -> bool {
        &&& 0 <= self.file_idx
        &&& self.has_file() ==> self.file_idx < self.files.len()
        &&& self.sends() ==> self.send_open
        &&& self.state == State::Receiving ==> self.recv_open
        &&& self.pending_zfile ==> self.state == State::RecvWaitFile
        &&& self.in_data_frame ==> self.sp_crc.len() < crc_len(self.sp_wide)
        &&& self.can_count < 5
        &&& self.farewell ==> self.state == State::Idle
        &&& self.state == State::Idle ==> self.closed()
    }

    /// Without a transfer: nothing is open, listed or awaited, no subpacket is
    /// begun, and no cancel characters are counted.
    pub open spec fn closed(self) -> bool {
        &&& self.state == State::Idle
        &&& !self.recv_open
        &&& !self.send_open
        &&& self.files.len() == 0
        &&& !self.in_data_frame
        &&& !self.pending_zfile
        &&& self.can_count == 0
        &&& self.sp_data.len() == 0
        &&& !self.sp_esc
        &&& self.sp_end is None
        &&& self.sp_crc.len() == 0
    }

    /// A file of the list is being sent.
    pub open spec fn sends(self) -> bool {
        self.state == State::SendWaitPos || self.state == State::Streaming || self.state
            == State::SendWaitEofAck
    }

    /// A file of the list is being sent or opened.
    pub open spec fn has_file(self) -> bool {
        self.sends() || self.state == State::SendOpening
    }

    /// This session with another buffer.
    pub open spec fn with_buf(self, buf: Seq<u8>) -> Session {
        Session { buf, ..self }
    }

    pub open spec fn with_state(self, state: State) -> Session {
        Session { state, ..self }
    }

    /// This session without its first `n` buffered bytes.
    pub open spec fn past(self, n: int) -> Session {
        Session { buf: self.buf.skip(n), ..self }
    }

    /// This session with no subpacket begun.
    pub open spec fn sp_cleared(self) -> Session {
        Session {
            sp_data: Seq::empty(),
            sp_esc: false,
            sp_end: None,
            sp_crc: Seq::empty(),
            ..self
        }
    }

    /// This session without its first buffered byte, which is no cancel
    /// character.
    pub open spec fn dropped(self) -> Session {
        Session { can_count: 0, ..self.past(1) }
    }

    /// This session without the sender's last word, if the buffer begins with
    /// it. Anything else is for the terminal, and then the word no longer
    /// comes.
    pub open spec fn after_farewell(self) -> Session {
        if !self.farewell || word_begun(self.buf) {
            self
        } else if word_whole(self.buf) {
            Session { farewell: false, ..self.past(late_line_end(self.buf) + 2) }
        } else {
            Session { farewell: false, ..self }
        }
    }

    /// The buffer begins with as many cancel characters as, with those counted
    /// before, make five.
    #[verifier::opaque]
    pub open spec fn fifth_due(self) -> bool {
        &&& 5 - self.can_count <= self.buf.len()
        &&& forall|i: int| 0 <= i < 5 - self.can_count ==> #[trigger] self.buf[i] == CAN
    }

    /// This session after the byte `b` of a subpacket's check.
    pub open spec fn crc_byte(self, b: u8) -> Session {
        if self.sp_esc {
            Session {
                sp_esc: false,
                sp_crc: self.sp_crc.push(crate::decode::unquoted(b)),
                ..self
            }
        } else if b == ZDLE {
            Session { sp_esc: true, ..self }
        } else if crate::decode::is_flow(b) {
            self
        } else {
            Session { sp_crc: self.sp_crc.push(b), ..self }
        }
    }

    /// This session after the byte `b` of a subpacket's data. A `ZDLE` that
    /// follows another one is like a fresh one.
    pub open spec fn data_byte(self, b: u8) -> Session {
        if self.sp_esc {
            if crate::decode::is_end(b) {
                Session { sp_esc: false, sp_end: Some(b), ..self }
            } else if b == CAN {
                self
            } else {
                Session {
                    sp_esc: false,
                    sp_data: self.sp_data.push(crate::decode::unquoted(b)),
                    ..self
                }
            }
        } else if b == ZDLE {
            Session { sp_esc: true, ..self }
        } else if crate::decode::is_flow(b) {
            self
        } else {
            Session { sp_data: self.sp_data.push(b), ..self }
        }
    }

    /// This session after its first buffered byte was read as a byte of a
    /// subpacket.
    pub open spec fn sp_byte(self) -> Session {
        self.past(1).sp_took(self.buf[0])
    }

    /// This session after the byte `b` of a subpacket.
    pub open spec fn sp_took(self, b: u8) -> Session {
        let z = Session { can_count: cancels_after(self.can_count, b) as u8, ..self };
        if self.sp_end is Some {
            z.crc_byte(b)
        } else {
            z.data_byte(b)
        }
    }
}

impl Run {
    pub open spec fn to(self, z: Session) -> Run {
        Run { z, ..self }
    }

    pub open spec fn emit(self, e: EventView) -> Run {
        Run { out: self.out.push(e), ..self }
    }

    pub open spec fn write(self, bytes: Seq<u8>) -> Run {
        self.emit(EventView::Write(bytes))
    }

    /// A hex header goes out.
    pub open spec fn send(self, typ: u8, data: Seq<u8>) -> Run {
        self.write(crate::frame::hex_header_of(typ, data))
    }

    pub open spec fn error(self, text: Seq<char>) -> Run {
        self.emit(EventView::Error(text))
    }

    /// The session is over.
    pub open spec fn reset(self) -> Run {
        self.to(
            Session {
                state: State::Idle,
                recv_open: false,
                send_open: false,
                files: Seq::empty(),
                in_data_frame: false,
                pending_zfile: false,
                can_count: 0,
                farewell: false,
                ..self.z.sp_cleared()
            },
        ).emit(EventView::Finished)
    }

    /// The remote side ended the session in the first `n` buffered bytes.
    pub open spec fn aborted(self, n: int) -> Run {
        self.to(self.z.past(n)).error("remote aborted the transfer"@).reset()
    }

    /// The remote side ended the session with cancel characters that are in
    /// the buffer. The fifth one is left.
    #[verifier::opaque]
    pub open spec fn cancelled(self) -> Run {
        match find_cancels(self.z.buf) {
            Some(p) => self.aborted(p + 4),
            None => self,
        }
    }

    /// The next file of the list is due; after the last one the session is to
    /// be closed.
    pub open spec fn next_file(self, resume: bool) -> Run {
        if self.z.file_idx < self.z.files.len() {
            self.to(Session { state: State::SendOpening, resume, ..self.z })
        } else {
            self.send(ZFIN, zeros()).to(self.z.with_state(State::FinWait))
        }
    }

    /// The file being sent is done with; the next one is due.
    pub open spec fn skip_file(self) -> Run {
        self.to(
            Session { send_open: false, file_idx: self.z.file_idx + 1, ..self.z },
        ).emit(EventView::Release).next_file(true)
    }

    /// The remote side sends files.
    pub open spec fn on_rqinit(self) -> Run {
        self.to(Session { peer_flags: 0, state: State::RecvWaitFile, ..self.z }).send(
            ZRINIT,
            our_flags(),
        )
    }

    /// The remote side is ready to receive.
    pub open spec fn on_rinit(self, flags: u32) -> Run {
        let heard = self.to(Session { peer_flags: flags, ..self.z });
        match self.z.state {
            State::Idle => heard.to(heard.z.with_state(State::SendWaitFiles)).emit(
                EventView::SendReady,
            ),
            State::SendWaitFiles | State::SendWaitPos | State::Streaming => heard,
            State::SendWaitEofAck => heard.emit(
                EventView::Done { name: self.z.send_name, dir: "up"@ },
            ).skip_file(),
            _ => self,
        }
    }

    /// The file subpacket `r` is in the buffer, whole and intact.
    pub open spec fn offered(self, r: RawView) -> Run {
        let (name, size) = crate::text::offer_of(r.data);
        self.to(
            Session {
                buf: self.z.buf.skip(r.used as int),
                recv_name: name,
                recv_size: size,
                state: State::RecvWaitAccept,
                ..self.z
            },
        ).emit(EventView::RecvOffer { name, size })
    }

    /// A file header came; its subpacket follows, now or later.
    pub open spec fn on_file(self, wide: bool) -> Run {
        self.to(
            Session {
                in_data_frame: false,
                sp_wide: wide,
                state: State::RecvWaitFile,
                pending_zfile: true,
                ..self.z
            },
        ).on_pending()
    }

    /// The subpacket of a file header may be there. One that is damaged is
    /// dropped, and the header is still remembered.
    #[verifier::opaque]
    pub open spec fn on_pending(self) -> Run {
        let s = self.z.buf;
        match crate::decode::raw_of(s, crc_len(self.z.sp_wide)) {
            None => self.cancelled(),
            Some(r) => if cut_off(s, r.used as int) {
                self.cancelled()
            } else if intact(r, self.z.sp_wide) {
                self.to(Session { pending_zfile: false, ..self.z }).offered(r)
            } else {
                self.to(self.z.past(r.used as int))
            },
        }
    }

    /// The remote side is told where to go on.
    pub open spec fn ask_pos(self) -> Run {
        self.send(ZRPOS, pos_data(self.z.recv_pos))
    }

    /// File data for the position `pos` follow.
    pub open spec fn on_data(self, pos: u64, wide: bool) -> Run {
        if self.z.state != State::Receiving {
            self
        } else if pos != self.z.recv_pos {
            self.ask_pos()
        } else {
            self.to(Session { in_data_frame: true, sp_wide: wide, ..self.z.sp_cleared() })
        }
    }

    /// The file ends at the position `pos`.
    pub open spec fn on_eof(self, pos: u64) -> Run {
        if self.z.state != State::Receiving {
            self
        } else if pos != self.z.recv_pos {
            self.ask_pos()
        } else {
            let closed = if self.z.recv_open {
                self.emit(EventView::Sync)
            } else {
                self
            };
            closed.emit(EventView::Done { name: self.z.recv_name, dir: "down"@ }).to(
                Session { recv_open: false, state: State::RecvWaitNext, ..self.z },
            ).send(ZRINIT, our_flags())
        }
    }

    /// The receiver wants the file from the position `pos` on.
    pub open spec fn on_rpos(self, pos: u64) -> Run {
        if self.z.sends() && self.z.send_open {
            self.emit(EventView::Seek(pos)).to(
                Session { send_pos: pos, state: State::Streaming, ..self.z },
            ).write(crate::frame::bin_header_of(ZDATA, pos_data(pos), self.z.peer_flags))
        } else {
            self
        }
    }

    /// The receiver does not want the file.
    pub open spec fn on_skip(self) -> Run {
        match self.z.state {
            State::SendWaitPos | State::Streaming => self.error(
                "remote skipped "@ + self.z.send_name,
            ).skip_file(),
            _ => self,
        }
    }

    /// The last header was not understood: an offer is made again.
    pub open spec fn on_nak(self) -> Run {
        if self.z.state == State::SendWaitPos && self.z.file_idx < self.z.files.len() {
            self.next_file(true)
        } else {
            self
        }
    }

    /// The remote side closes the session. A sender that is answered has one
    /// last word, two bytes that are not for the terminal.
    pub open spec fn on_fin(self) -> Run {
        match self.z.state {
            State::FinWait => self.write(seq![0x4fu8, 0x4f]).reset(),
            State::RecvWaitNext | State::RecvWaitFile => {
                let over = self.send(ZFIN, zeros()).reset();
                over.to(Session { farewell: true, ..over.z })
            },
            _ => self,
        }
    }

    /// The remote side gives up.
    pub open spec fn on_abort(self) -> Run {
        self.error("remote aborted the transfer"@).send(ZFIN, zeros()).reset()
    }

    /// A header arrived: cancel characters before it no longer count, and
    /// nothing of an earlier session is awaited.
    pub open spec fn on_header(self, h: HeaderView) -> Run {
        self.to(Session { can_count: 0, farewell: false, ..self.z }).heard(h)
    }

    /// What a header calls for.
    #[verifier::opaque]
    pub open spec fn heard(self, h: HeaderView) -> Run {
        let pos = crate::bytes::from_le32(h.data) as u64;
        let wide = h.enc == ZBIN32;
        if h.typ == ZRQINIT {
            self.on_rqinit()
        } else if h.typ == ZRINIT {
            self.on_rinit(crate::bytes::from_be32(h.data))
        } else if h.typ == ZSINIT {
            self.send(ZACK, zeros())
        } else if h.typ == ZFILE {
            self.on_file(wide)
        } else if h.typ == ZDATA {
            self.on_data(pos, wide)
        } else if h.typ == ZEOF {
            self.on_eof(pos)
        } else if h.typ == ZRPOS {
            self.on_rpos(pos)
        } else if h.typ == ZSKIP {
            self.on_skip()
        } else if h.typ == ZNAK {
            self.on_nak()
        } else if h.typ == ZFIN {
            self.on_fin()
        } else if h.typ == ZABORT || h.typ == ZFERR {
            self.on_abort()
        } else {
            self
        }
    }

    /// The subpacket being received is complete.
    #[verifier::opaque]
    pub open spec fn finish_subpacket(self) -> Run {
        let z = self.z;
        let end = match z.sp_end {
            Some(e) => e,
            None => ZCRCE,
        };
        let ok = z.sp_crc == crate::frame::check_of(
            z.sp_data.push(end),
            z.sp_wide,
        );
        let idle = z.sp_cleared();
        if !ok {
            self.to(Session { in_data_frame: false, ..idle }).ask_pos()
        } else {
            let pos = advance(z.recv_pos, z.sp_data.len());
            let stored = if z.recv_open {
                self.emit(EventView::Store(z.sp_data))
            } else {
                self
            };
            let told = stored.to(
                Session {
                    recv_pos: pos,
                    in_data_frame: z.in_data_frame && end != ZCRCE && end != ZCRCW,
                    ..idle
                },
            ).emit(
                EventView::Progress {
                    name: z.recv_name,
                    done: pos,
                    total: z.recv_size,
                    dir: "down"@,
                },
            );
            if end == ZCRCQ || end == ZCRCW {
                told.send(ZACK, pos_data(pos))
            } else {
                told
            }
        }
    }

    /// Buffered bytes are file data: they are used up one by one, to the end
    /// of a subpacket at most. Five cancel characters end the session.
    #[verifier::opaque]
    pub open spec fn step_data(self) -> Run
        decreases self.z.buf.len(),
    {
        if self.z.buf.len() == 0 {
            self
        } else if self.z.fifth_due() {
            self.aborted(5 - self.z.can_count)
        } else {
            let next = self.to(self.z.sp_byte());
            if self.z.sp_end is Some && next.z.sp_crc.len() >= crc_len(self.z.sp_wide) {
                next.finish_subpacket()
            } else {
                next.step_data()
            }
        }
    }

    /// The hex header `h` that the buffer begins with is taken out of it.
    pub open spec fn take_hex(self, h: HeaderView) -> Run {
        self.to(self.z.with_buf(after_eol(self.z.buf.skip(18)))).on_header(h)
    }

    /// The buffer begins with the start of a binary header.
    #[verifier::opaque]
    pub open spec fn step_bin(self) -> Run {
        let s = self.z.buf;
        match bin_header_in(s.skip(3), s[2]) {
            BinView::Partial => self.cancelled(),
            BinView::Damaged(n) => if cut_off(s, 3 + n as int) {
                self.cancelled()
            } else {
                self.to(Session { can_count: 0, ..self.z.past(3 + n as int) }).send(ZNAK, zeros())
            },
            BinView::Whole(h, n) => if cut_off(s, 3 + n as int) {
                self.cancelled()
            } else {
                self.to(self.z.past(3 + n as int)).on_header(h)
            },
        }
    }

    /// The buffer begins with the start of a header, as far as it is known.
    #[verifier::opaque]
    pub open spec fn step_header(self) -> Run {
        let s = self.z.buf;
        if s.len() < 3 {
            self
        } else if s[1] == ZPAD {
            if s[2] != ZDLE {
                self.to(self.z.dropped())
            } else if s.len() < 4 {
                self
            } else if s[3] != ZHEX {
                self.to(self.z.dropped())
            } else if cut_off(s, 18) {
                self.cancelled()
            } else if s.len() < 18 {
                self
            } else {
                match hex_header_in(s) {
                    Some(h) => self.take_hex(h),
                    None => self.to(self.z.dropped()),
                }
            }
        } else if s[1] != ZDLE || (s[2] != ZBIN && s[2] != ZBIN32) {
            self.to(self.z.dropped())
        } else {
            self.step_bin()
        }
    }

    /// The next header is looked for; bytes before it are line noise, but
    /// five cancel characters in a row end the session. The fifth one is left.
    #[verifier::opaque]
    pub open spec fn step_frame(self) -> Run
        decreases self.z.buf.len(),
    {
        let s = self.z.buf;
        if s.len() == 0 || s[0] == ZPAD {
            self.step_header()
        } else if cancels_after(self.z.can_count, s[0]) >= 5 {
            self.aborted(0)
        } else {
            self.to(
                Session {
                    can_count: cancels_after(self.z.can_count, s[0]) as u8,
                    ..self.z.past(1)
                },
            ).step_frame()
        }
    }

    /// The first `n` buffered bytes go to the terminal.
    pub open spec fn forward(self, n: int) -> Run {
        self.emit(EventView::Forward(self.z.buf.take(n))).to(self.z.past(n))
    }

    /// The buffer begins with a signature.
    #[verifier::opaque]
    pub open spec fn step_signature(self) -> Run {
        let s = self.z.buf;
        if s.len() < 18 {
            self
        } else {
            match hex_header_in(s) {
                Some(h) => self.take_hex(h),
                None => self.forward(1),
            }
        }
    }

    /// No transfer is on: bytes go to the terminal, up to a signature; a few
    /// are kept back where they may be the start of one.
    #[verifier::opaque]
    pub open spec fn step_terminal(self) -> Run {
        match find_signature(self.z.buf) {
            None => if self.z.buf.len() > 3 {
                self.forward(self.z.buf.len() - 3)
            } else {
                self
            },
            Some(p) => if p > 0 {
                self.forward(p).step_signature()
            } else {
                self.step_signature()
            },
        }
    }

    /// No transfer is on.
    pub open spec fn step_idle(self) -> Run {
        self.to(self.z.after_farewell()).step_terminal()
    }

    /// Buffered bytes are used by the part of the protocol that is on.
    #[verifier::opaque]
    pub open spec fn dispatch(self) -> Run {
        match self.z.state {
            State::Idle => self.step_idle(),
            State::Receiving if self.z.in_data_frame => self.step_data(),
            _ => self.step_frame(),
        }
    }

    /// One step on the buffered bytes.
    #[verifier::opaque]
    pub open spec fn step(self) -> Run {
        if self.z.state == State::SendOpening {
            self
        } else if self.z.pending_zfile {
            let r = self.on_pending();
            if r.z.pending_zfile {
                r
            } else {
                r.dispatch()
            }
        } else {
            self.dispatch()
        }
    }

    /// Steps until the buffer stays as it is.
    #[verifier::opaque]
    pub open spec fn steps(self) -> Run
        decreases self.z.buf.len(),
    {
        let r = self.step();
        if r.z.buf.len() < self.z.buf.len() {
            r.steps()
        } else {
            r
        }
    }

    /// Steps until the buffer stays as it is; without a transfer, what has
    /// piled up beyond a bound then goes to the terminal.
    #[verifier::opaque]
    pub open spec fn settle(self) -> Run {
        let r = self.steps();
        if r.z.state == State::Idle && r.z.buf.len() > 8192 {
            r.forward(r.z.buf.len() - 64)
        } else {
            r
        }
    }

    /// Bytes arrive from the line.
    pub open spec fn feed(self, data: Seq<u8>) -> Run {
        let z = self.z.with_buf(self.z.buf + data);
        if z.state == State::SendOpening {
            self.to(Session { resume: true, ..z })
        } else {
            self.to(z).settle()
        }
    }

    /// The user chose a place for the offered file and it could be created.
    pub open spec fn accepted(self) -> Run {
        if self.z.state != State::RecvWaitAccept {
            self
        } else {
            self.to(
                Session { recv_open: true, recv_pos: 0, state: State::Receiving, ..self.z },
            ).send(ZRPOS, pos_data(0))
        }
    }

    /// The user chose a place for the offered file and it could not be
    /// created.
    pub open spec fn not_accepted(self, path: Seq<char>, reason: Seq<char>) -> Run {
        if self.z.state != State::RecvWaitAccept {
            self
        } else {
            self.error("cannot create "@ + path + ": "@ + reason).send(ZSKIP, zeros()).to(
                self.z.with_state(State::RecvWaitNext),
            )
        }
    }

    /// The user chose files to send.
    pub open spec fn start_send(self, paths: Seq<Seq<char>>) -> Run {
        if self.z.state != State::SendWaitFiles || paths.len() == 0 {
            self
        } else {
            self.to(Session { files: paths, file_idx: 0, ..self.z }).next_file(false)
        }
    }

    /// What waited for a file goes on.
    pub open spec fn go_on(self) -> Run {
        if self.z.resume {
            self.settle()
        } else {
            self
        }
    }

    /// The next file of the list was opened.
    pub open spec fn opened(self, name: Option<Seq<char>>, size: Option<u64>) -> Run {
        if self.z.state != State::SendOpening {
            self
        } else {
            let name = match name {
                Some(n) => n,
                None => "file"@,
            };
            let size = match size {
                Some(n) => n,
                None => 0,
            };
            let flags = self.z.peer_flags;
            self.to(
                Session {
                    send_open: true,
                    send_name: name,
                    send_size: size,
                    send_pos: 0,
                    state: State::SendWaitPos,
                    ..self.z
                },
            ).write(
                crate::frame::bin_header_of(ZFILE, zeros(), flags) + crate::frame::subpacket_of(
                    crate::text::offer_data(name, size),
                    ZCRCW,
                    flags,
                ),
            ).go_on()
        }
    }

    /// The next file of the list could not be opened.
    pub open spec fn not_opened(self, reason: Seq<char>) -> Run {
        if self.z.state != State::SendOpening {
            self
        } else {
            let r = self.error(
                "cannot open "@ + self.z.files[self.z.file_idx] + ": "@ + reason,
            ).to(Session { file_idx: self.z.file_idx + 1, ..self.z }).next_file(self.z.resume);
            if r.z.state == State::SendOpening {
                r
            } else {
                r.go_on()
            }
        }
    }

    /// The user gives up.
    pub open spec fn cancel(self) -> Run {
        if self.z.state == State::Idle {
            self
        } else {
            self.write(seq![CAN, CAN, CAN, CAN, CAN, 8u8, 8, 8, 8, 8]).error(
                "transfer cancelled"@,
            ).reset()
        }
    }

    /// The file being sent was read; `reads` are what the reads gave. A burst
    /// of no data is the end of the file, wherever it was to end; the frame is
    /// then ended without data.
    pub open spec fn pump(self, reads: Seq<Seq<u8>>) -> Run {
        let z = self.z;
        if z.state != State::Streaming || !z.send_open {
            self
        } else {
            let (pos, bytes) = burst(
                reads,
                z.send_pos,
                z.send_size,
                z.peer_flags,
                BURST_READS as nat,
            );
            let told = self.write(line_of(bytes, z.peer_flags)).to(
                Session { send_pos: pos, ..z },
            ).emit(
                EventView::Progress {
                    name: z.send_name,
                    done: pos,
                    total: z.send_size,
                    dir: "up"@,
                },
            );
            let warned = if pos < z.send_size && bytes.len() == 0 {
                told.error("cannot read the rest of "@ + z.send_name)
            } else {
                told
            };
            if pos >= z.send_size || bytes.len() == 0 {
                warned.send(ZEOF, pos_data(pos)).to(told.z.with_state(State::SendWaitEofAck))
            } else {
                warned
            }
        }
    }
}

/// What is written of a burst: its subpackets, or one without data that ends
/// the frame.
pub open spec fn line_of(bytes: Seq<u8>, flags: u32) -> Seq<u8> {
    if bytes.len() > 0 {
        bytes
    } else {
        crate::frame::subpacket_of(Seq::empty(), ZCRCE, flags)
    }
}

/// What is sent of the first `left` of `reads`, up to one that gave nothing or
/// one that reached the size, and the position after it.
pub open spec fn burst(
    reads: Seq<Seq<u8>>,
    pos: u64,
    size: u64,
    flags: u32,
    left: nat,
) -> (u64, Seq<u8>)
    decreases left,
{
    if left == 0 || reads.len() == 0 || reads[0].len() == 0 {
        (pos, Seq::empty())
    } else {
        let next = advance(pos, reads[0].len());
        if next >= size {
            (next, crate::frame::subpacket_of(reads[0], ZCRCE, flags))
        } else {
            let (end, bytes) = burst(reads.skip(1), next, size, flags, (left - 1) as nat);
            (end, crate::frame::subpacket_of(reads[0], ZCRCG, flags) + bytes)
        }
    }
}

/// A header keeps the invariant and adds nothing to the buffer.
pub proof fn lemma_on_header(r: Run, h: HeaderView)
    requires
        r.z.wf(),
    ensures
        r.on_header(h).z.wf(),
        r.on_header(h).z.buf.len() <= r.z.buf.len(),
{
    let z = Session { can_count: 0, farewell: false, ..r.z };
    let wide = h.enc == ZBIN32;
    lemma_on_pending(
        r.to(
            Session {
                in_data_frame: false,
                sp_wide: wide,
                state: State::RecvWaitFile,
                pending_zfile: true,
                ..z
            },
        ),
    );
    reveal(Run::heard);
}

/// When five cancel characters are complete.
pub proof fn lemma_fifth_due(z: Session)
    requires
        z.can_count < 5,
        z.buf.len() > 0,
    ensures
        z.fifth_due() ==> 5 - z.can_count <= z.buf.len() && z.buf[0] == CAN,
        z.fifth_due() && z.can_count < 4 ==> z.buf[1] == CAN,
        z.can_count == 4 && z.buf[0] == CAN ==> z.fifth_due(),
        z.can_count == 3 && z.buf.len() > 1 && z.buf[0] == CAN && z.buf[1] == CAN ==> z.fifth_due(),
{
    reveal(Session::fifth_due);
}

/// One byte of file data or of a check.
pub proof fn lemma_data_byte(r: Run)
    requires
        r.z.buf.len() > 0,
    ensures
        ({
            let next = r.to(r.z.sp_byte());
            r.step_data() == if r.z.fifth_due() {
                r.aborted(5 - r.z.can_count)
            } else if r.z.sp_end is Some && next.z.sp_crc.len() >= crc_len(r.z.sp_wide) {
                next.finish_subpacket()
            } else {
                next.step_data()
            }
        }),
{
    reveal(Run::step_data);
}

/// A subpacket's bytes keep the invariant, and some are used up.
pub proof fn lemma_step_data(r: Run)
    requires
        r.z.wf(),
        r.z.state == State::Receiving,
    ensures
        r.step_data().z.wf(),
        r.step_data().z.buf.len() <= r.z.buf.len(),
        r.z.buf.len() > 0 ==> r.step_data().z.buf.len() < r.z.buf.len(),
    decreases r.z.buf.len(),
{
    if r.z.buf.len() == 0 {
        reveal(Run::step_data);
    } else {
        lemma_data_byte(r);
        lemma_fifth_due(r.z);
        if !r.z.fifth_due() {
            let next = r.to(r.z.sp_byte());
            reveal(Run::finish_subpacket);
            if !(r.z.sp_end is Some && next.z.sp_crc.len() >= crc_len(r.z.sp_wide)) {
                lemma_step_data(next);
            }
        }
    }
}

pub proof fn lemma_after_eol(s: Seq<u8>)
    ensures
        after_eol(s).len() <= s.len(),
    decreases s.len(),
{
    if s.len() > 0 && is_eol(s[0]) {
        lemma_after_eol(s.skip(1));
    }
}

pub proof fn lemma_take_hex(r: Run, h: HeaderView)
    requires
        r.z.wf(),
        r.z.buf.len() >= 18,
    ensures
        r.take_hex(h).z.wf(),
        r.take_hex(h).z.buf.len() < r.z.buf.len(),
{
    lemma_after_eol(r.z.buf.skip(18));
    lemma_on_header(r.to(r.z.with_buf(after_eol(r.z.buf.skip(18)))), h);
}

pub proof fn lemma_step_bin(r: Run)
    requires
        r.z.wf(),
        r.z.buf.len() >= 3,
    ensures
        r.step_bin().z.wf(),
        r.step_bin().z.buf.len() <= r.z.buf.len(),
{
    reveal(Run::step_bin);
    let s = r.z.buf;
    crate::decode::lemma_values_bound(s.skip(3), bin_len(s[2]));
    lemma_cancelled(r);
    if let BinView::Whole(h, n) = bin_header_in(s.skip(3), s[2]) {
        lemma_on_header(r.to(r.z.past(3 + n as int)), h);
    }
}

/// Looking at the start of a header keeps the invariant and adds nothing to
/// the buffer.
pub proof fn lemma_step_header(r: Run)
    requires
        r.z.wf(),
    ensures
        r.step_header().z.wf(),
        r.step_header().z.buf.len() <= r.z.buf.len(),
{
    reveal(Run::step_header);
    lemma_cancelled(r);
    if r.z.buf.len() >= 18 && hex_header_in(r.z.buf) is Some {
        lemma_take_hex(r, hex_header_in(r.z.buf)->0);
    }
    if r.z.buf.len() >= 3 {
        lemma_step_bin(r);
    }
}

/// At the start of a header, or without bytes, nothing is dropped.
pub proof fn lemma_frame_start(r: Run)
    requires
        r.z.buf.len() == 0 || r.z.buf[0] == ZPAD,
    ensures
        r.step_frame() == r.step_header(),
{
    reveal(Run::step_frame);
}

/// One byte of line noise.
pub proof fn lemma_frame_byte(r: Run)
    requires
        r.z.buf.len() > 0,
        r.z.buf[0] != ZPAD,
    ensures
        ({
            let n = cancels_after(r.z.can_count, r.z.buf[0]);
            r.step_frame() == if n >= 5 {
                r.aborted(0)
            } else {
                r.to(Session { can_count: n as u8, ..r.z.past(1) }).step_frame()
            }
        }),
{
    reveal(Run::step_frame);
}

/// Looking for a header keeps the invariant and adds nothing to the buffer.
pub proof fn lemma_step_frame(r: Run)
    requires
        r.z.wf(),
        r.z.state != State::Idle,
    ensures
        r.step_frame().z.wf(),
        r.step_frame().z.buf.len() <= r.z.buf.len(),
    decreases r.z.buf.len(),
{
    let s = r.z.buf;
    if s.len() == 0 || s[0] == ZPAD {
        lemma_frame_start(r);
        lemma_step_header(r);
    } else {
        lemma_frame_byte(r);
        let n = cancels_after(r.z.can_count, s[0]);
        if n < 5 {
            lemma_step_frame(r.to(Session { can_count: n as u8, ..r.z.past(1) }));
        }
    }
}

/// The place that is found is the first one.
pub proof fn lemma_find_cancels(s: Seq<u8>)
    ensures
        match find_cancels(s) {
            Some(p) => cancels_at(s, p) && forall|q: int| q < p ==> !#[trigger] cancels_at(s, q),
            None => forall|q: int| !#[trigger] cancels_at(s, q),
        },
    decreases s.len(),
{
    if s.len() >= 5 && !cancels_at(s, 0) {
        let t = s.skip(1);
        lemma_find_cancels(t);
        assert forall|q: int| #[trigger] cancels_at(s, q) implies cancels_at(t, q - 1) by {}
    }
}

/// Without five cancel characters in the buffer nothing is cancelled.
pub proof fn lemma_no_cancels(r: Run)
    ensures
        !cut_off(r.z.buf, r.z.buf.len() as int) ==> r.cancelled() == r,
{
    reveal(Run::cancelled);
    lemma_find_cancels(r.z.buf);
}

/// Cancel characters in the buffer keep the invariant, and they are used up.
pub proof fn lemma_cancelled(r: Run)
    requires
        r.z.wf(),
    ensures
        r.cancelled().z.wf(),
        r.cancelled().z.buf.len() <= r.z.buf.len(),
{
    reveal(Run::cancelled);
    lemma_find_cancels(r.z.buf);
}

/// The place that is found is the first one.
pub proof fn lemma_find_signature(s: Seq<u8>)
    ensures
        match find_signature(s) {
            Some(p) => signature_at(s, p) && forall|q: int| q < p ==> !#[trigger] signature_at(s, q),
            None => forall|q: int| !#[trigger] signature_at(s, q),
        },
    decreases s.len(),
{
    if s.len() >= 4 && !signature_at(s, 0) {
        let t = s.skip(1);
        lemma_find_signature(t);
        assert forall|q: int| #[trigger] signature_at(s, q) implies signature_at(t, q - 1) by {}
    }
}

pub proof fn lemma_step_signature(r: Run)
    requires
        r.z.wf(),
    ensures
        r.step_signature().z.wf(),
        r.step_signature().z.buf.len() <= r.z.buf.len(),
{
    reveal(Run::step_signature);
    if r.z.buf.len() >= 18 && hex_header_in(r.z.buf) is Some {
        lemma_take_hex(r, hex_header_in(r.z.buf)->0);
    }
}

/// Looking for a signature keeps the invariant and adds nothing to the
/// buffer.
pub proof fn lemma_step_idle(r: Run)
    requires
        r.z.wf(),
    ensures
        r.step_idle().z.wf(),
        r.step_idle().z.buf.len() <= r.z.buf.len(),
{
    reveal(Run::step_terminal);
    let q = r.to(r.z.after_farewell());
    lemma_find_signature(q.z.buf);
    match find_signature(q.z.buf) {
        Some(p) => if p > 0 {
            lemma_step_signature(q.forward(p));
        } else {
            lemma_step_signature(q);
        },
        None => {},
    }
}

pub proof fn lemma_dispatch(r: Run)
    requires
        r.z.wf(),
    ensures
        r.dispatch().z.wf(),
        r.dispatch().z.buf.len() <= r.z.buf.len(),
{
    reveal(Run::dispatch);
    if r.z.state == State::Idle {
        lemma_step_idle(r);
    } else if r.z.state == State::Receiving && r.z.in_data_frame {
        lemma_step_data(r);
    } else {
        lemma_step_frame(r);
    }
}

pub proof fn lemma_on_pending(r: Run)
    requires
        r.z.wf(),
        r.z.pending_zfile,
    ensures
        r.on_pending().z.wf(),
        r.on_pending().z.buf.len() <= r.z.buf.len(),
{
    reveal(Run::on_pending);
    crate::decode::lemma_raw_bound(r.z.buf, crc_len(r.z.sp_wide));
    lemma_cancelled(r);
}

/// A step keeps the invariant and adds nothing to the buffer.
pub proof fn lemma_step(r: Run)
    requires
        r.z.wf(),
    ensures
        r.step().z.wf(),
        r.step().z.buf.len() <= r.z.buf.len(),
{
    reveal(Run::step);
    if r.z.pending_zfile {
        lemma_on_pending(r);
        lemma_dispatch(r.on_pending());
    } else {
        lemma_dispatch(r);
    }
}

/// All steps together keep the invariant and add nothing to the buffer.
pub proof fn lemma_steps(r: Run)
    requires
        r.z.wf(),
    ensures
        r.steps().z.wf(),
        r.steps().z.buf.len() <= r.z.buf.len(),
    decreases r.z.buf.len(),
{
    reveal(Run::steps);
    lemma_step(r);
    if r.step().z.buf.len() < r.z.buf.len() {
        lemma_steps(r.step());
    }
}

} // verus!
