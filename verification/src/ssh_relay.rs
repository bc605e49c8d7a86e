//! Reaching a remote socket through an exec channel.
//!
//! Where the ssh server of a host does not serve forwarded sockets, each local
//! connection is carried by a command of its own on the remote, which bridges
//! its standard streams and the socket.

use crate::text::{
    is_white_space, law_trimming_takes_the_ends, occurs_at, occurs_in, trim, trimmed,
};
use vstd::prelude::*;
use vstd::utf8::encode_utf8;

verus! {

// --- base64 -----------------------------------------------------------------

/// The standard alphabet of RFC 4648.
pub open spec fn symbol(n: int) -> char {
    if n < 26 {
        ('A' as u8 + n) as char
    } else if n < 52 {
        ('a' as u8 + (n - 26)) as char
    } else if n < 62 {
        ('0' as u8 + (n - 52)) as char
    } else if n == 62 {
        '+'
    } else {
        '/'
    }
}

/// Byte `k` of a block of three; nothing beyond the end.
pub open spec fn byte_of(bytes: Seq<u8>, block: int, k: int) -> int {
    if 3 * block + k < bytes.len() {
        bytes[3 * block + k] as int
    } else {
        0
    }
}

/// Six bits of three bytes, from the top.
pub open spec fn sextet(b0: int, b1: int, b2: int, k: int) -> int {
    if k == 0 {
        b0 / 4
    } else if k == 1 {
        b0 % 4 * 16 + b1 / 16
    } else if k == 2 {
        b1 % 16 * 4 + b2 / 64
    } else {
        b2 % 64
    }
}

/// Six bits of a block.
pub open spec fn block_sextet(bytes: Seq<u8>, block: int, k: int) -> int {
    sextet(byte_of(bytes, block, 0), byte_of(bytes, block, 1), byte_of(bytes, block, 2), k)
}

/// Character `k` of the block: one more than there are bytes in it stand for
/// six bits each, the rest are padding.
pub open spec fn block_char(bytes: Seq<u8>, block: int, k: int) -> char {
    if k > bytes.len() - 3 * block {
        '='
    } else {
        symbol(block_sextet(bytes, block, k))
    }
}

/// The standard encoding of RFC 4648, with padding.
pub open spec fn base64(bytes: Seq<u8>) -> Seq<char> {
    Seq::new(base64_len(bytes.len()), |i: int| block_char(bytes, i / 4, i % 4))
}

/// Four characters for every three bytes or part of three.
pub open spec fn base64_len(n: nat) -> nat {
    (n + 2) / 3 * 4
}

/// `Engine::encode` of the base64 crate with its standard engine: the standard
/// alphabet, padded. It panics where the encoding is longer than a vector can
/// be.
#[verifier::external_body]
fn encode_base64(bytes: &[u8]) -> (r: String)
    requires
        base64_len(bytes@.len()) <= isize::MAX,
    ensures
        r@ == base64(bytes@),
{
    base64::Engine::encode(&base64::engine::general_purpose::STANDARD, bytes)
}

// --- the command ------------------------------------------------------------

/// A bridge between standard streams and a socket, for a python without any
/// further library. It copies both ways at once on raw descriptors, passes on
/// the end of its input without ending, and ends with the socket.
pub const BRIDGE: &'static str = "import os,socket,sys,threading,base64
p=base64.b64decode(sys.argv[1]).decode()
s=socket.socket(socket.AF_UNIX,socket.SOCK_STREAM)
s.connect(p)
def up():
    while True:
        b=os.read(0,65536)
        if not b:
            break
        s.sendall(b)
    try:
        s.shutdown(socket.SHUT_WR)
    except OSError:
        pass
threading.Thread(target=up,daemon=True).start()
while True:
    try:
        b=s.recv(65536)
    except OSError:
        break
    if not b:
        break
    while b:
        try:
            n=os.write(1,b)
        except OSError:
            sys.exit(0)
        b=b[n:]
";

/// A command that bridges its standard streams and a socket, and which bridge
/// it is.
#[derive(Debug, Clone)]
pub struct RelayCommand {
    pub cmd: String,
    pub tool: &'static str,
}

pub struct RelayText {
    pub cmd: Seq<char>,
    pub tool: Seq<char>,
}

impl View for RelayCommand {
    type V = RelayText;

    open spec fn view(&self) -> RelayText {
        RelayText { cmd: self.cmd@, tool: self.tool@ }
    }
}

impl RelayCommand {
    /// Which bridge the command is.
    pub fn tool(&self) -> (r: &'static str)
        ensures
            r@ == self@.tool,
    {
        self.tool
    }
}

/// The bridge with socat: it takes the rest of the word as the socket's path.
pub open spec fn socat_text(sock: Seq<char>) -> Seq<char> {
    "socat - UNIX-CONNECT:"@ + sock
}

/// The bridge with python, given its argument.
pub open spec fn bridge_text(arg: Seq<char>) -> Seq<char> {
    "python3 -c '"@ + BRIDGE@ + "' '"@ + arg + "'"@
}

/// The bridge with python. The path goes in as a base64 argument, so that no
/// part of it is read as shell or python.
pub open spec fn python_text(sock: Seq<char>) -> Seq<char> {
    bridge_text(base64(encode_utf8(sock)))
}

/// A path that the base64 argument can hold.
pub open spec fn encodable(sock: Seq<char>) -> bool {
    base64_len(encode_utf8(sock).len()) <= isize::MAX
}

/// The command that bridges with socat.
pub fn socat_bridge_command(remote_sock: &str) -> (r: String)
    ensures
        r@ == socat_text(remote_sock@),
{
    let mut r = "socat - UNIX-CONNECT:".to_owned();
    r.append(remote_sock);
    r
}

/// The command that bridges with python, for hosts without socat.
pub fn python_bridge_command(remote_sock: &str) -> (r: String)
    requires
        encodable(remote_sock@),
    ensures
        r@ == python_text(remote_sock@),
{
    let arg = encode_base64(remote_sock.as_bytes());
    let mut r = "python3 -c '".to_owned();
    r.append(BRIDGE);
    r.append("' '");
    r.append(arg.as_str());
    r.append("'");
    r
}

/// Why no relay can be had.
pub const NO_TOOL: &'static str =
    "remote has neither socat nor python3, which one of is needed to reach herdr's socket over an exec relay — install either";

/// What the remote is asked for.
#[derive(Debug, Clone, Copy, PartialEq, Eq, Structural)]
pub enum Probe {
    Socat,
    Python3,
}

/// What the reply to a probe leads to.
#[derive(Debug)]
pub enum Detected {
    Relay(RelayCommand),
    Ask(Probe),
    NoTool,
}

pub enum DetectedText {
    Relay(RelayText),
    Ask(Probe),
    NoTool,
}

impl View for Detected {
    type V = DetectedText;

    open spec fn view(&self) -> DetectedText {
        match self {
            Detected::Relay(c) => DetectedText::Relay(c@),
            Detected::Ask(p) => DetectedText::Ask(*p),
            Detected::NoTool => DetectedText::NoTool,
        }
    }
}

/// What the reply to a probe leads to: a reply that is not blank means that the
/// tool is there. Socat is asked for first, then python.
pub open spec fn detected(probe: Probe, reply: Seq<char>, sock: Seq<char>) -> DetectedText {
    let there = trimmed(reply).len() > 0;
    match probe {
        Probe::Socat => if there {
            DetectedText::Relay(RelayText { cmd: socat_text(sock), tool: "socat"@ })
        } else {
            DetectedText::Ask(Probe::Python3)
        },
        Probe::Python3 => if there {
            DetectedText::Relay(RelayText { cmd: python_text(sock), tool: "python3"@ })
        } else {
            DetectedText::NoTool
        },
    }
}

/// How the search starts, given what the check of the socket's path came to.
pub open spec fn begun(checked: Result<(), String>) -> Result<Probe, String> {
    match checked {
        Ok(()) => Ok(Probe::Socat),
        Err(e) => Err(e),
    }
}

/// The command that prints where a tool is.
pub open spec fn probe_text(probe: Probe) -> Seq<char> {
    match probe {
        Probe::Socat => "command -v socat"@,
        Probe::Python3 => "command -v python3"@,
    }
}

impl Probe {
    /// Starts the search for a tool, given what the check of the socket's path
    /// came to: a path that was rejected ends the search before anything is run
    /// on the remote.
    pub fn begin(checked: Result<(), String>) -> (r: Result<Probe, String>)
        ensures
            match (checked, r) {
                (Ok(()), Ok(p)) => p == Probe::Socat,
                (Err(e), Err(f)) => f == e,
                _ => false,
            },
            r == begun(checked),
    {
        match checked {
            Ok(()) => Ok(Probe::Socat),
            Err(e) => Err(e),
        }
    }

    /// The command that prints where the tool is, and nothing where it is not.
    pub fn command(&self) -> (r: &'static str)
        ensures
            r@ == (match self {
                Probe::Socat => "command -v socat"@,
                Probe::Python3 => "command -v python3"@,
            }),
            r@ == probe_text(*self),
    {
        match self {
            Probe::Socat => "command -v socat",
            Probe::Python3 => "command -v python3",
        }
    }

    /// What the reply to this probe leads to; a probe that failed has an empty
    /// reply.
    pub fn answered(&self, reply: &str, remote_sock: &str) -> (r: Detected)
        requires
            encodable(remote_sock@),
        ensures
            r@ == detected(*self, reply@, remote_sock@),
    {
        let found = trim(reply);
        let there = !found.as_str().is_empty();
        match self {
            Probe::Socat => if there {
                Detected::Relay(
                    RelayCommand { cmd: socat_bridge_command(remote_sock), tool: "socat" },
                )
            } else {
                Detected::Ask(Probe::Python3)
            },
            Probe::Python3 => if there {
                Detected::Relay(
                    RelayCommand { cmd: python_bridge_command(remote_sock), tool: "python3" },
                )
            } else {
                Detected::NoTool
            },
        }
    }
}

/// Whether the base64 argument can hold a path.
pub fn can_encode(remote_sock: &str) -> (r: bool)
    ensures
        r == encodable(remote_sock@),
{
    let n: usize = remote_sock.as_bytes().len();
    let whole: usize = n / 3;
    let blocks: usize = if n % 3 == 0 {
        whole
    } else {
        whole + 1
    };
    blocks <= isize::MAX as usize / 4
}

/// The arguments of the ssh that runs a command over an existing master
/// connection.
pub open spec fn ssh_words(ctl_path: Seq<char>, target: Seq<char>, cmd: Seq<char>) -> Seq<
    Seq<char>,
> {
    seq!["-S"@, ctl_path, "-o"@, "BatchMode=yes"@, target, cmd]
}

/// The arguments of the ssh that runs a relay over an existing master
/// connection.
pub fn relay_args(ctl_path: &str, ssh_target: &str, relay: &RelayCommand) -> (r: Vec<String>)
    ensures
        crate::text::texts(r@) == seq![
            "-S"@,
            ctl_path@,
            "-o"@,
            "BatchMode=yes"@,
            ssh_target@,
            relay@.cmd,
        ],
        crate::text::texts(r@) == ssh_words(ctl_path@, ssh_target@, relay@.cmd),
{
    let mut r: Vec<String> = Vec::new();
    r.push("-S".to_owned());
    r.push(ctl_path.to_owned());
    r.push("-o".to_owned());
    r.push("BatchMode=yes".to_owned());
    r.push(ssh_target.to_owned());
    r.push(relay.cmd.as_str().to_owned());
    assert(crate::text::texts(r@) =~= seq![
        "-S"@,
        ctl_path@,
        "-o"@,
        "BatchMode=yes"@,
        ssh_target@,
        relay@.cmd,
    ]);
    r
}

// --- accepting --------------------------------------------------------------

/// Permissions of the local socket: whoever can connect drives the remote.
pub const SOCKET_MODE: u32 = 0o600;

/// Failed accepts in a row after which the relay gives up.
pub const MAX_ACCEPT_ERRORS: u32 = 5;

/// What a failed accept leads to; `count` is the number of failures in a row.
#[derive(Debug, Clone, Copy, PartialEq, Eq, Structural)]
pub enum AcceptStep {
    Retry { count: u32, wait_ms: u64 },
    GiveUp { count: u32 },
}

/// What failure number `count` in a row leads to.
pub open spec fn after_failure(count: nat) -> AcceptStep {
    if count >= MAX_ACCEPT_ERRORS {
        AcceptStep::GiveUp { count: count as u32 }
    } else {
        AcceptStep::Retry { count: count as u32, wait_ms: (200 * count) as u64 }
    }
}

/// The accept loop of a relay.
pub struct AcceptLoop {
    errors: u32,
}

impl AcceptLoop {
    /// Failures since the last connection.
    pub closed spec fn errors(self) -> nat {
        self.errors as nat
    }

    /// The loop is still running.
    pub open spec fn wf(self) -> bool {
        self.errors() < MAX_ACCEPT_ERRORS
    }

    /// A loop before its first accept.
    pub fn new() -> (r: AcceptLoop)
        ensures
            r.wf(),
            r.errors() == 0,
    {
        AcceptLoop { errors: 0 }
    }

    /// A connection came in.
    pub fn accepted(&mut self)
        ensures
            final(self).wf(),
            final(self).errors() == 0,
    {
        self.errors = 0;
    }

    /// An accept failed.
    pub fn failed(&mut self) -> (r: AcceptStep)
        requires
            old(self).wf(),
        ensures
            final(self).errors() == old(self).errors() + 1,
            r == after_failure(final(self).errors()),
            r is Retry <==> final(self).wf(),
    {
        self.errors = self.errors + 1;
        if self.errors >= MAX_ACCEPT_ERRORS {
            AcceptStep::GiveUp { count: self.errors }
        } else {
            AcceptStep::Retry { count: self.errors, wait_ms: 200 * self.errors as u64 }
        }
    }
}

// --- copying ----------------------------------------------------------------

/// What happens to a relayed connection. A read gives the bytes it got, none of
/// them at the end of the stream, or nothing where it failed.
#[derive(Debug, Clone, Copy, PartialEq, Eq, Structural)]
pub enum RelayEvent {
    ClientRead(Option<usize>),
    RemoteWriteFailed,
    RemoteRead(Option<usize>),
    ClientWriteFailed,
    Shutdown,
}

/// What is done about it.
#[derive(Debug, Clone, Copy, PartialEq, Eq, Structural)]
pub enum RelayAction {
    /// pass that many bytes on to the remote
    ToRemote(usize),
    /// pass the end of the client's input on, and keep waiting for the reply
    HalfClose,
    /// pass that many bytes on to the client
    ToClient(usize),
    /// the exchange is over
    End,
}

/// What is done about an event. The client's side ending is the end of its
/// request alone; the remote's side ending is the end of the exchange.
pub open spec fn relay_action(event: RelayEvent) -> RelayAction {
    match event {
        RelayEvent::ClientRead(Some(n)) => if n > 0 {
            RelayAction::ToRemote(n)
        } else {
            RelayAction::HalfClose
        },
        RelayEvent::ClientRead(None) => RelayAction::HalfClose,
        RelayEvent::RemoteWriteFailed => RelayAction::HalfClose,
        RelayEvent::RemoteRead(Some(n)) => if n > 0 {
            RelayAction::ToClient(n)
        } else {
            RelayAction::End
        },
        RelayEvent::RemoteRead(None) => RelayAction::End,
        RelayEvent::ClientWriteFailed => RelayAction::End,
        RelayEvent::Shutdown => RelayAction::End,
    }
}

/// What is done about an event of a relayed connection.
pub fn pump_step(event: RelayEvent) -> (r: RelayAction)
    ensures
        r == relay_action(event),
{
    match event {
        RelayEvent::ClientRead(Some(n)) => if n > 0 {
            RelayAction::ToRemote(n)
        } else {
            RelayAction::HalfClose
        },
        RelayEvent::ClientRead(None) => RelayAction::HalfClose,
        RelayEvent::RemoteWriteFailed => RelayAction::HalfClose,
        RelayEvent::RemoteRead(Some(n)) => if n > 0 {
            RelayAction::ToClient(n)
        } else {
            RelayAction::End
        },
        RelayEvent::RemoteRead(None) => RelayAction::End,
        RelayEvent::ClientWriteFailed => RelayAction::End,
        RelayEvent::Shutdown => RelayAction::End,
    }
}

/// What a relay that is over has to report, if anything.
pub open spec fn complaint_text(complaint: Seq<char>) -> Option<Seq<char>> {
    if trimmed(complaint).len() == 0 {
        None
    } else {
        Some("relay: "@ + trimmed(complaint))
    }
}

/// What a relay that is over has to report: what its command complained about,
/// if it did.
pub fn pump_outcome(complaint: &str) -> (r: Result<(), String>)
    ensures
        match r {
            Ok(()) => trimmed(complaint@).len() == 0,
            Err(e) => trimmed(complaint@).len() > 0 && e@ == "relay: "@ + trimmed(complaint@),
        },
        (match r {
            Ok(()) => None,
            Err(e) => Some(e@),
        }) == complaint_text(complaint@),
{
    let said = trim(complaint);
    if said.as_str().is_empty() {
        return Ok(());
    }
    let mut e = "relay: ".to_owned();
    e.append(said.as_str());
    Err(e)
}

// --- laws -------------------------------------------------------------------

/// A character of the standard encoding.
pub open spec fn is_base64_char(c: char) -> bool {
    'A' <= c <= 'Z' || 'a' <= c <= 'z' || '0' <= c <= '9' || c == '+' || c == '/' || c == '='
}

proof fn lemma_sextet_range(bytes: Seq<u8>, block: int, k: int)
    requires
        0 <= block,
        0 <= k < 4,
    ensures
        0 <= block_sextet(bytes, block, k) < 64,
{
}

proof fn lemma_base64_char(bytes: Seq<u8>, i: int)
    requires
        0 <= i < base64(bytes).len(),
    ensures
        is_base64_char(base64(bytes)[i]),
{
    lemma_sextet_range(bytes, i / 4, i % 4);
}

proof fn lemma_script_has_no_quote_or_slash()
    ensures
        forall|i: int| 0 <= i < BRIDGE@.len() ==> #[trigger] BRIDGE@[i] != '\'',
        forall|i: int| 0 <= i < BRIDGE@.len() ==> #[trigger] BRIDGE@[i] != '/',
{
    reveal_strlit("import os,socket,sys,threading,base64
p=base64.b64decode(sys.argv[1]).decode()
s=socket.socket(socket.AF_UNIX,socket.SOCK_STREAM)
s.connect(p)
def up():
    while True:
        b=os.read(0,65536)
        if not b:
            break
        s.sendall(b)
    try:
        s.shutdown(socket.SHUT_WR)
    except OSError:
        pass
threading.Thread(target=up,daemon=True).start()
while True:
    try:
        b=s.recv(65536)
    except OSError:
        break
    if not b:
        break
    while b:
        try:
            n=os.write(1,b)
        except OSError:
            sys.exit(0)
        b=b[n:]
");
}

/// The quoting of the python bridge holds whatever the path: neither the script
/// nor the argument has a single quote in it.
pub proof fn law_bridge_stays_quoted(sock: Seq<char>)
    ensures
        forall|i: int| 0 <= i < BRIDGE@.len() ==> #[trigger] BRIDGE@[i] != '\'',
        forall|i: int|
            0 <= i < base64(encode_utf8(sock)).len() ==> #[trigger] base64(encode_utf8(sock))[i]
                != '\'',
{
    lemma_script_has_no_quote_or_slash();
    assert forall|i: int| 0 <= i < base64(encode_utf8(sock)).len() implies #[trigger] base64(
        encode_utf8(sock),
    )[i] != '\'' by {
        lemma_base64_char(encode_utf8(sock), i);
    }
}

/// What stands before the argument, whatever the path.
pub open spec fn before_argument() -> Seq<char> {
    "python3 -c '"@ + BRIDGE@ + "' '"@
}

/// An absolute path is no part of the command outside of its argument.
pub proof fn law_absolute_path_stands_in_its_argument_alone(sock: Seq<char>, p: int)
    requires
        sock.len() > 0,
        sock[0] == '/',
        occurs_at(python_text(sock), sock, p),
    ensures
        p >= before_argument().len(),
        occurs_at(base64(encode_utf8(sock)) + "'"@, sock, p - before_argument().len()),
{
    let head = before_argument();
    let tail = base64(encode_utf8(sock)) + "'"@;
    let cmd = python_text(sock);
    assert(cmd =~= head + tail);
    assert(cmd.subrange(p, p + sock.len())[0] == cmd[p]);
    if p < head.len() {
        lemma_script_has_no_quote_or_slash();
        reveal_strlit("python3 -c '");
        reveal_strlit("' '");
        let before = "python3 -c '"@;
        assert(head[p] == '/');
        if p >= before.len() && p < before.len() + BRIDGE@.len() {
            assert(head[p] == BRIDGE@[p - before.len()]);
        }
    }
    let q = p - head.len();
    assert(tail.subrange(q, q + sock.len()) =~= cmd.subrange(p, p + sock.len()));
}

/// An absolute path never stands in the command as it is written, unless it is
/// a part of its own encoding.
pub proof fn law_absolute_path_stays_out(sock: Seq<char>)
    requires
        sock.len() > 0,
        sock[0] == '/',
        !occurs_in(base64(encode_utf8(sock)) + "'"@, sock),
    ensures
        !occurs_in(python_text(sock), sock),
{
    assert forall|p: int| !occurs_at(python_text(sock), sock, p) by {
        if occurs_at(python_text(sock), sock, p) {
            law_absolute_path_stands_in_its_argument_alone(sock, p);
        }
    }
}

/// An absolute path with a character in it that base64 has not, such as a shell
/// or python might act on, never stands in the command as it is written. (A
/// quote at the very end could be mistaken for the closing one.)
pub proof fn law_path_with_foreign_character_stays_out(sock: Seq<char>, at: int)
    requires
        0 <= at < sock.len(),
        sock[0] == '/',
        !is_base64_char(sock[at]),
        sock[at] != '\'' || at + 1 < sock.len(),
    ensures
        !occurs_in(python_text(sock), sock),
{
    let arg = base64(encode_utf8(sock));
    let tail = arg + "'"@;
    reveal_strlit("'");
    assert forall|q: int| !occurs_at(tail, sock, q) by {
        if occurs_at(tail, sock, q) {
            assert(tail.subrange(q, q + sock.len())[at] == tail[q + at]);
            if q + at < arg.len() {
                assert(arg[q + at] == sock[at]);
                lemma_base64_char(encode_utf8(sock), q + at);
            }
        }
    }
    law_absolute_path_stays_out(sock);
}

proof fn lemma_symbol_tells(a: int, b: int)
    requires
        0 <= a < 64,
        0 <= b < 64,
        symbol(a) == symbol(b),
    ensures
        a == b,
{
}

proof fn lemma_sextets_tell(a0: int, a1: int, a2: int, b0: int, b1: int, b2: int)
    requires
        0 <= a0 < 256,
        0 <= a1 < 256,
        0 <= a2 < 256,
        0 <= b0 < 256,
        0 <= b1 < 256,
        0 <= b2 < 256,
        sextet(a0, a1, a2, 0) == sextet(b0, b1, b2, 0),
        sextet(a0, a1, a2, 1) == sextet(b0, b1, b2, 1),
        sextet(a0, a1, a2, 2) == sextet(b0, b1, b2, 2),
        sextet(a0, a1, a2, 3) == sextet(b0, b1, b2, 3),
    ensures
        a0 == b0,
        a1 == b1,
        a2 == b2,
{
}

proof fn lemma_block_char(bytes: Seq<u8>, block: int, k: int)
    requires
        0 <= block < (bytes.len() + 2) / 3,
        0 <= k < 4,
    ensures
        4 * block + k < base64(bytes).len(),
        base64(bytes)[4 * block + k] == block_char(bytes, block, k),
        block_char(bytes, block, k) == '=' <==> k > bytes.len() - 3 * block,
{
    let i = 4 * block + k;
    assert(i / 4 == block && i % 4 == k);
    lemma_sextet_range(bytes, block, k);
}

proof fn lemma_same_length(a: Seq<u8>, b: Seq<u8>)
    requires
        base64(a) == base64(b),
    ensures
        a.len() == b.len(),
{
    assert(base64(a).len() == base64_len(a.len()));
    assert(base64(b).len() == base64_len(b.len()));
    assert((a.len() + 2) / 3 == (b.len() + 2) / 3);
    if a.len() > 0 {
        let block: int = (a.len() + 2) / 3 - 1;
        lemma_block_char(a, block, 2);
        lemma_block_char(b, block, 2);
        lemma_block_char(a, block, 3);
        lemma_block_char(b, block, 3);
        assert(base64(a)[4 * block + 2] == base64(b)[4 * block + 2]);
        assert(base64(a)[4 * block + 3] == base64(b)[4 * block + 3]);
    }
}

proof fn lemma_same_sextet(a: Seq<u8>, b: Seq<u8>, block: int, k: int)
    requires
        a.len() == b.len(),
        base64(a) == base64(b),
        0 <= block < (a.len() + 2) / 3,
        0 <= k < 4,
    ensures
        block_sextet(a, block, k) == block_sextet(b, block, k),
{
    lemma_block_char(a, block, k);
    lemma_block_char(b, block, k);
    if k <= a.len() - 3 * block {
        lemma_sextet_range(a, block, k);
        lemma_sextet_range(b, block, k);
        lemma_symbol_tells(block_sextet(a, block, k), block_sextet(b, block, k));
    } else {
        assert(byte_of(a, block, 2) == 0 && byte_of(b, block, 2) == 0);
        assert(k >= 3 || byte_of(a, block, 1) == 0 && byte_of(b, block, 1) == 0);
    }
}

/// The encoding loses nothing: what is read back from the argument is the path.
pub proof fn law_encoding_is_lossless(a: Seq<u8>, b: Seq<u8>)
    requires
        base64(a) == base64(b),
    ensures
        a == b,
{
    lemma_same_length(a, b);
    assert forall|i: int| 0 <= i < a.len() implies a[i] == b[i] by {
        let block = i / 3;
        lemma_same_sextet(a, b, block, 0);
        lemma_same_sextet(a, b, block, 1);
        lemma_same_sextet(a, b, block, 2);
        lemma_same_sextet(a, b, block, 3);
        lemma_sextets_tell(
            byte_of(a, block, 0),
            byte_of(a, block, 1),
            byte_of(a, block, 2),
            byte_of(b, block, 0),
            byte_of(b, block, 1),
            byte_of(b, block, 2),
        );
        assert(byte_of(a, block, i % 3) == a[i]);
        assert(byte_of(b, block, i % 3) == b[i]);
    }
    assert(a =~= b);
}

/// Two different sockets are never reached by the same command.
pub proof fn law_commands_tell_sockets_apart(a: Seq<char>, b: Seq<char>)
    ensures
        socat_text(a) == socat_text(b) ==> a == b,
        python_text(a) == python_text(b) ==> a == b,
{
    let s = "socat - UNIX-CONNECT:"@;
    if socat_text(a) == socat_text(b) {
        assert(socat_text(a).len() == s.len() + a.len());
        assert(socat_text(b).len() == s.len() + b.len());
        assert forall|i: int| 0 <= i < a.len() implies a[i] == b[i] by {
            assert(socat_text(a)[s.len() + i] == a[i]);
            assert(socat_text(b)[s.len() + i] == b[i]);
        }
        assert(a =~= b);
    }
    if python_text(a) == python_text(b) {
        let x = base64(encode_utf8(a));
        let y = base64(encode_utf8(b));
        let head = "python3 -c '"@ + BRIDGE@ + "' '"@;
        assert(python_text(a).len() == head.len() + x.len() + "'"@.len());
        assert(python_text(b).len() == head.len() + y.len() + "'"@.len());
        assert forall|i: int| 0 <= i < x.len() implies x[i] == y[i] by {
            assert(python_text(a)[head.len() + i] == x[i]);
            assert(python_text(b)[head.len() + i] == y[i]);
        }
        assert(x =~= y);
        law_encoding_is_lossless(encode_utf8(a), encode_utf8(b));
        vstd::utf8::encode_utf8_decode_utf8(a);
        vstd::utf8::encode_utf8_decode_utf8(b);
    }
}

/// What the whole search leads to, given the replies to both probes; that to the
/// second counts only where it is run.
pub open spec fn searched(socat: Seq<char>, python: Seq<char>, sock: Seq<char>) -> DetectedText {
    match detected(Probe::Socat, socat, sock) {
        DetectedText::Ask(next) => detected(next, python, sock),
        end => end,
    }
}

/// The search ends after two probes at the latest: with socat where it is there,
/// whatever else is; else with python where that is; and without a tool only
/// where neither is, for which the message names both.
pub proof fn law_socat_comes_first(socat: Seq<char>, python: Seq<char>, sock: Seq<char>)
    ensures
        trimmed(socat).len() > 0 ==> searched(socat, python, sock) == DetectedText::Relay(
            (RelayText { cmd: socat_text(sock), tool: "socat"@ }),
        ),
        trimmed(socat).len() == 0 && trimmed(python).len() > 0 ==> searched(socat, python, sock)
            == DetectedText::Relay((RelayText { cmd: python_text(sock), tool: "python3"@ })),
        searched(socat, python, sock) is NoTool <==> trimmed(socat).len() == 0 && trimmed(
            python,
        ).len() == 0,
        occurs_in(NO_TOOL@, "socat"@),
        occurs_in(NO_TOOL@, "python3"@),
{
    reveal_strlit(
        "remote has neither socat nor python3, which one of is needed to reach herdr's socket over an exec relay — install either",
    );
    reveal_strlit("socat");
    reveal_strlit("python3");
    assert(NO_TOOL@.subrange(19, 24) =~= "socat"@);
    assert(occurs_at(NO_TOOL@, "socat"@, 19));
    assert(NO_TOOL@.subrange(29, 36) =~= "python3"@);
    assert(occurs_at(NO_TOOL@, "python3"@, 29));
}

/// The exchange ends with the remote's side, with a client that takes no more, or
/// with the relay; the end of the client's request never ends it, whichever way
/// it comes about.
pub proof fn law_exchange_ends_with_the_remote(event: RelayEvent)
    ensures
        relay_action(event) is End <==> event is Shutdown || event is ClientWriteFailed || event
            == RelayEvent::RemoteRead(None) || event == RelayEvent::RemoteRead(Some(0)),
        event is ClientRead || event is RemoteWriteFailed ==> relay_action(event) !is End,
{
}

/// The bytes that reach the remote out of what is read from the client, read by
/// read.
pub open spec fn reached_remote(reads: Seq<Seq<u8>>) -> Seq<u8>
    decreases reads.len(),
{
    if reads.len() == 0 {
        Seq::empty()
    } else {
        let read = reads.last();
        let before = reached_remote(reads.drop_last());
        match relay_action(RelayEvent::ClientRead(Some(read.len() as usize))) {
            RelayAction::ToRemote(n) => before + read.take(n as int),
            _ => before,
        }
    }
}

/// The bytes that reach the client out of what is read from the remote, read by
/// read.
pub open spec fn reached_client(reads: Seq<Seq<u8>>) -> Seq<u8>
    decreases reads.len(),
{
    if reads.len() == 0 {
        Seq::empty()
    } else {
        let read = reads.last();
        let before = reached_client(reads.drop_last());
        match relay_action(RelayEvent::RemoteRead(Some(read.len() as usize))) {
            RelayAction::ToClient(n) => before + read.take(n as int),
            _ => before,
        }
    }
}

/// Nothing is lost, added or moved on the way: over any run of reads, what reaches
/// the other side is what was read, byte for byte and in order, in both
/// directions. Each read that got bytes passes exactly these on.
pub proof fn law_all_that_is_read_is_passed_on(reads: Seq<Seq<u8>>)
    requires
        forall|i: int| 0 <= i < reads.len() ==> 0 < (#[trigger] reads[i]).len() <= usize::MAX,
    ensures
        reached_remote(reads) == reads.flatten(),
        reached_client(reads) == reads.flatten(),
        forall|n: usize| #![auto] n > 0 ==> relay_action(RelayEvent::ClientRead(Some(n)))
            == RelayAction::ToRemote(n),
        forall|n: usize| #![auto] n > 0 ==> relay_action(RelayEvent::RemoteRead(Some(n)))
            == RelayAction::ToClient(n),
    decreases reads.len(),
{
    if reads.len() == 0 {
        assert(reads.flatten() =~= Seq::empty());
    } else {
        let before = reads.drop_last();
        let read = reads.last();
        assert forall|i: int| 0 <= i < before.len() implies 0 < (#[trigger] before[i]).len()
            <= usize::MAX by {
            assert(before[i] == reads[i]);
        }
        law_all_that_is_read_is_passed_on(before);
        assert(reads[reads.len() - 1] == read);
        assert(read.take(read.len() as int) =~= read);
        assert(reads =~= before.push(read));
        reads.lemma_flatten_and_flatten_alt_are_equivalent();
        before.lemma_flatten_and_flatten_alt_are_equivalent();
    }
}

/// The client's side ending, or no longer being writable to the remote, is passed
/// on as the end of the request; nothing else is.
pub proof fn law_end_of_the_request_is_passed_on(event: RelayEvent)
    ensures
        relay_action(event) is HalfClose <==> event == RelayEvent::ClientRead(None) || event
            == RelayEvent::ClientRead(Some(0)) || event == RelayEvent::RemoteWriteFailed,
        relay_action(event) is ToRemote ==> event is ClientRead,
        relay_action(event) is ToClient ==> event is RemoteRead,
{
}

/// A path that was rejected ends the search with the reason it was rejected for;
/// one that was not starts it with socat.
pub proof fn law_rejected_path_ends_the_search(reason: String)
    ensures
        begun(Err(reason)) == Err::<Probe, String>(reason),
        begun(Ok(())) == Ok::<Probe, String>(Probe::Socat),
{
}

/// Each probe asks the shell where its own tool is.
pub proof fn law_probe_asks_for_its_tool(probe: Probe)
    ensures
        probe_text(probe) == "command -v "@ + (if probe == Probe::Socat {
            "socat"@
        } else {
            "python3"@
        }),
{
    reveal_strlit("command -v socat");
    reveal_strlit("command -v python3");
    reveal_strlit("command -v ");
    reveal_strlit("socat");
    reveal_strlit("python3");
    assert("command -v socat"@ =~= "command -v "@ + "socat"@);
    assert("command -v python3"@ =~= "command -v "@ + "python3"@);
}

/// The path is handed to socat as the whole rest of its address, and to python as
/// an argument of its own behind the script.
pub proof fn law_commands_end_with_the_path(sock: Seq<char>)
    ensures
        socat_text(sock) == "socat - UNIX-CONNECT:"@ + sock,
        python_text(sock) == "python3 -c '"@ + BRIDGE@ + "' '"@ + base64(encode_utf8(sock)) + "'"@,
{
}

/// The ssh of a relay goes over the given master connection, never asks anything,
/// and runs the given command, as one word, on the given target.
pub proof fn law_ssh_runs_the_command(ctl_path: Seq<char>, target: Seq<char>, cmd: Seq<char>)
    ensures
        ({
            let words = ssh_words(ctl_path, target, cmd);
            &&& words.len() == 6
            &&& words[0] == "-S"@
            &&& words[1] == ctl_path
            &&& words[2] == "-o"@
            &&& words[3] == "BatchMode=yes"@
            &&& words[4] == target
            &&& words[5] == cmd
        }),
{
}

/// A relay reports what its command complained about, without the white space
/// around it, and reports nothing only where that was all there was.
pub proof fn law_complaints_are_reported(complaint: Seq<char>)
    ensures
        complaint_text(complaint) is None <==> forall|i: int|
            0 <= i < complaint.len() ==> is_white_space(#[trigger] complaint[i]),
        complaint_text(complaint) matches Some(t) ==> exists|from: int, to: int|
            0 <= from < to <= complaint.len() && t == "relay: "@ + #[trigger] complaint.subrange(
                from,
                to,
            ) && !is_white_space(complaint[from]) && !is_white_space(complaint[to - 1]) && (forall|
                i: int,
            |
                0 <= i < from || to <= i < complaint.len() ==> is_white_space(
                    #[trigger] complaint[i],
                )),
{
    let (from, to) = law_trimming_takes_the_ends(complaint);
    if trimmed(complaint).len() == 0 {
        assert forall|i: int| 0 <= i < complaint.len() implies is_white_space(
            #[trigger] complaint[i],
        ) by {}
    } else {
        assert(!is_white_space(complaint[from]));
    }
}

/// Failure number `count` in a row is waited out for two tenths of a second times
/// its number up to the fourth, and is the last one from the fifth on.
pub proof fn law_failures_are_waited_out(count: nat)
    requires
        count <= u32::MAX,
    ensures
        count < 5 ==> after_failure(count) == (AcceptStep::Retry {
            count: count as u32,
            wait_ms: (200 * count) as u64,
        }),
        count >= 5 ==> after_failure(count) == (AcceptStep::GiveUp { count: count as u32 }),
{
}

/// The encoding takes four characters for each three bytes, the last three begun
/// counting whole.
pub proof fn law_encoding_has_its_length(bytes: Seq<u8>)
    ensures
        base64(bytes).len() % 4 == 0,
        3 * base64(bytes).len() >= 4 * bytes.len(),
        3 * base64(bytes).len() <= 4 * bytes.len() + 8,
{
}

/// Time that the relay waits before it gives up on accepting.
pub open spec fn waited(failures: nat) -> nat
    decreases failures,
{
    if failures == 0 {
        0
    } else {
        waited((failures - 1) as nat) + match after_failure(failures) {
            AcceptStep::Retry { wait_ms, .. } => wait_ms as nat,
            AcceptStep::GiveUp { .. } => 0,
        }
    }
}

/// The relay waits a little longer after each failure in a row, and gives up
/// after the fifth, two seconds in.
pub proof fn law_accepting_gives_up_in_time(failures: nat)
    ensures
        failures >= MAX_ACCEPT_ERRORS ==> after_failure(failures) is GiveUp,
        failures >= MAX_ACCEPT_ERRORS ==> waited(failures) == 2000,
        failures < MAX_ACCEPT_ERRORS ==> after_failure(failures) is Retry,
    decreases failures,
{
    if failures > MAX_ACCEPT_ERRORS {
        law_accepting_gives_up_in_time((failures - 1) as nat);
    } else {
        reveal_with_fuel(waited, 6);
    }
}

/// A path can be encoded exactly where four characters for each three of its bytes,
/// the last three begun counting whole, are no more than memory can hold.
pub proof fn law_paths_can_be_encoded_while_memory_lasts(sock: Seq<char>)
    ensures
        encodable(sock) <==> (encode_utf8(sock).len() + 2) / 3 * 4 <= isize::MAX,
{
}

/// The local socket is for its owner alone.
pub proof fn law_socket_is_for_its_owner()
    ensures
        SOCKET_MODE == 0o600,
{
}

/// A command and what a probe led to are seen as they are.
pub proof fn law_commands_are_seen_as_they_are(c: RelayCommand, p: Probe)
    ensures
        c@.cmd == c.cmd@,
        c@.tool == c.tool@,
        Detected::Relay(c)@ == DetectedText::Relay(c@),
        Detected::Ask(p)@ == DetectedText::Ask(p),
        Detected::NoTool@ == DetectedText::NoTool,
{
}

/// What is left of an encoding within one block of three bytes are their bits, six at
/// a time from the top.
pub proof fn law_sextets_are_the_bits_in_order(b0: int, b1: int, b2: int)
    requires
        0 <= b0 < 256,
        0 <= b1 < 256,
        0 <= b2 < 256,
    ensures
        sextet(b0, b1, b2, 0) * 262144 + sextet(b0, b1, b2, 1) * 4096 + sextet(b0, b1, b2, 2) * 64
            + sextet(b0, b1, b2, 3) == b0 * 65536 + b1 * 256 + b2,
        0 <= sextet(b0, b1, b2, 0) < 64,
        0 <= sextet(b0, b1, b2, 1) < 64,
        0 <= sextet(b0, b1, b2, 2) < 64,
        0 <= sextet(b0, b1, b2, 3) < 64,
{
}

} // verus!
