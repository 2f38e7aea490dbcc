//! Choices that are made by name on the command line.

use std::str::FromStr;

use vstd::prelude::*;

verus! {

/// `str::to_lowercase`: the Unicode lowercase equivalent of a text.
pub uninterp spec fn lowercase(s: Seq<char>) -> Seq<char>;

/// Whether every character is ASCII.
pub open spec fn all_ascii(s: Seq<char>) -> bool {
    forall|i: int| 0 <= i < s.len() ==> (#[trigger] s[i] as u32) < 0x80
}

/// `s` with the letters A to Z replaced by a to z.
pub open spec fn ascii_lowercase(s: Seq<char>) -> Seq<char> {
    s.map_values(
        |c: char|
            if 'A' <= c <= 'Z' {
                (c as u32 + 0x20) as char
            } else {
                c
            },
    )
}

/// `str::to_lowercase`, whose result depends on the text alone. An ASCII text has its letters A to
/// Z replaced by a to z.
#[verifier::external_body]
fn to_lowercase(s: &str) -> (r: String)
    ensures
        r@ == lowercase(s@),
        all_ascii(s@) ==> r@ == ascii_lowercase(s@),
{
    s.to_lowercase()
}

/// A name that stands for none of the choices.
#[derive(Debug, Clone)]
pub struct UnknownName {
    /// The error in words
    pub message: String,
}

fn unknown(what: &str, name: &str, choices: &str) -> (e: UnknownName)
    ensures
        e.message@ == what@ + name@ + choices@,
{
    let mut message = what.to_owned();
    message.append(name);
    message.append(choices);
    UnknownName { message }
}

/// How the runtime executes tasks.
#[derive(Debug, Clone, Copy, PartialEq, Eq, Structural)]
pub enum RuntimeType {
    Tokio,
    TokioCurrentThread,
}

/// The cipher suites the handshake can be restricted to.
#[derive(Debug, Clone, Copy, PartialEq, Eq, Structural)]
pub enum CipherSuite {
    Aes128,
    Aes256,
    Chacha20,
}

/// Direction of the datagram flood.
#[derive(Debug, Clone, Copy, PartialEq, Eq, Structural)]
pub enum Direction {
    /// Client sends, server receives.
    Send,
    /// Server sends, client receives.
    Recv,
    /// Both sides send and receive concurrently (full-duplex).
    Both,
}

/// How the sender should issue datagrams.
#[derive(Debug, Clone, Copy, PartialEq, Eq, Structural)]
pub enum SendMode {
    /// Drops the oldest queued datagram on backpressure.
    Drop,
    /// Waits for buffer space on backpressure.
    Wait,
}

/// Congestion controller to use.
#[derive(Debug, Clone, Copy, PartialEq, Eq, Structural)]
pub enum Congestion {
    Cubic,
    NewReno,
    Bbr3,
}

impl RuntimeType {
    /// The runtime type that a lowercase name stands for, if it is one.
    pub open spec fn named(name: Seq<char>) -> Option<Self> {
        if name == "tokio"@ {
            Some(RuntimeType::Tokio)
        } else if name == "tokio-current-thread"@ {
            Some(RuntimeType::TokioCurrentThread)
        } else {
            None
        }
    }

    /// What comes of reading `text`, which stands for `found` if for any runtime type.
    pub open spec fn read_as(
        r: Result<Self, UnknownName>,
        text: Seq<char>,
        found: Option<Self>,
    ) -> bool {
        match found {
            Some(choice) => r == Ok::<_, UnknownName>(choice),
            None => r matches Err(e) && e.message@ == "Unknown runtime type "@ + text + ""@,
        }
    }

    /// The runtime type that a lowercase name stands for, if it is one.
    pub fn by_name(name: &String) -> (r: Option<Self>)
        ensures
            r == RuntimeType::named(name@),
    {
        if *name == "tokio".to_owned() {
            Some(RuntimeType::Tokio)
        } else if *name == "tokio-current-thread".to_owned() {
            Some(RuntimeType::TokioCurrentThread)
        } else {
            None
        }
    }

    /// The runtime type with this name, in upper or lower case.
    pub fn from_str(s: &str) -> (r: Result<Self, UnknownName>)
        ensures
            RuntimeType::read_as(r, s@, RuntimeType::named(lowercase(s@))),
            all_ascii(s@) ==> RuntimeType::read_as(r, s@, RuntimeType::named(ascii_lowercase(s@))),
    {
        match RuntimeType::by_name(&to_lowercase(s)) {
            Some(choice) => Ok(choice),
            None => Err(unknown("Unknown runtime type ", s, "")),
        }
    }

    /// The name of the runtime type.
    pub open spec fn name_spec(self) -> Seq<char> {
        match self {
            RuntimeType::Tokio => "tokio"@,
            RuntimeType::TokioCurrentThread => "tokio-current-thread"@,
        }
    }

    /// The name of the runtime type.
    pub fn name(self) -> (text: &'static str)
        ensures
            text@ == self.name_spec(),
    {
        match self {
            RuntimeType::Tokio => "tokio",
            RuntimeType::TokioCurrentThread => "tokio-current-thread",
        }
    }
}

impl FromStr for RuntimeType {
    type Err = UnknownName;

    fn from_str(s: &str) -> (r: Result<Self, UnknownName>)
        ensures
            RuntimeType::read_as(r, s@, RuntimeType::named(lowercase(s@))),
            all_ascii(s@) ==> RuntimeType::read_as(r, s@, RuntimeType::named(ascii_lowercase(s@))),
    {
        RuntimeType::from_str(s)
    }
}

impl CipherSuite {
    /// The cipher suite that a lowercase name stands for, if it is one.
    pub open spec fn named(name: Seq<char>) -> Option<Self> {
        if name == "aes128"@ {
            Some(CipherSuite::Aes128)
        } else if name == "aes256"@ {
            Some(CipherSuite::Aes256)
        } else if name == "chacha20"@ {
            Some(CipherSuite::Chacha20)
        } else {
            None
        }
    }

    /// What comes of reading `text`, which stands for `found` if for any cipher suite.
    pub open spec fn read_as(
        r: Result<Self, UnknownName>,
        text: Seq<char>,
        found: Option<Self>,
    ) -> bool {
        match found {
            Some(choice) => r == Ok::<_, UnknownName>(choice),
            None => r matches Err(e) && e.message@ == "Unknown cipher suite "@ + text + ""@,
        }
    }

    /// The cipher suite that a lowercase name stands for, if it is one.
    pub fn by_name(name: &String) -> (r: Option<Self>)
        ensures
            r == CipherSuite::named(name@),
    {
        if *name == "aes128".to_owned() {
            Some(CipherSuite::Aes128)
        } else if *name == "aes256".to_owned() {
            Some(CipherSuite::Aes256)
        } else if *name == "chacha20".to_owned() {
            Some(CipherSuite::Chacha20)
        } else {
            None
        }
    }

    /// The cipher suite with this name, in upper or lower case.
    pub fn from_str(s: &str) -> (r: Result<Self, UnknownName>)
        ensures
            CipherSuite::read_as(r, s@, CipherSuite::named(lowercase(s@))),
            all_ascii(s@) ==> CipherSuite::read_as(r, s@, CipherSuite::named(ascii_lowercase(s@))),
    {
        match CipherSuite::by_name(&to_lowercase(s)) {
            Some(choice) => Ok(choice),
            None => Err(unknown("Unknown cipher suite ", s, "")),
        }
    }

    /// The name of the cipher suite.
    pub open spec fn name_spec(self) -> Seq<char> {
        match self {
            CipherSuite::Aes128 => "aes128"@,
            CipherSuite::Aes256 => "aes256"@,
            CipherSuite::Chacha20 => "chacha20"@,
        }
    }

    /// The name of the cipher suite.
    pub fn name(self) -> (text: &'static str)
        ensures
            text@ == self.name_spec(),
    {
        match self {
            CipherSuite::Aes128 => "aes128",
            CipherSuite::Aes256 => "aes256",
            CipherSuite::Chacha20 => "chacha20",
        }
    }
}

impl FromStr for CipherSuite {
    type Err = UnknownName;

    fn from_str(s: &str) -> (r: Result<Self, UnknownName>)
        ensures
            CipherSuite::read_as(r, s@, CipherSuite::named(lowercase(s@))),
            all_ascii(s@) ==> CipherSuite::read_as(r, s@, CipherSuite::named(ascii_lowercase(s@))),
    {
        CipherSuite::from_str(s)
    }
}

impl Direction {
    /// The direction that a lowercase name stands for, if it is one.
    pub open spec fn named(name: Seq<char>) -> Option<Self> {
        if name == "send"@ {
            Some(Direction::Send)
        } else if name == "recv"@ || name == "receive"@ {
            Some(Direction::Recv)
        } else if name == "both"@ || name == "duplex"@ {
            Some(Direction::Both)
        } else {
            None
        }
    }

    /// What comes of reading `text`, which stands for `found` if for any direction.
    pub open spec fn read_as(
        r: Result<Self, UnknownName>,
        text: Seq<char>,
        found: Option<Self>,
    ) -> bool {
        match found {
            Some(choice) => r == Ok::<_, UnknownName>(choice),
            None => r matches Err(e) && e.message@ == "Unknown direction "@ + text + " (send|recv|both)"@,
        }
    }

    /// The direction that a lowercase name stands for, if it is one.
    pub fn by_name(name: &String) -> (r: Option<Self>)
        ensures
            r == Direction::named(name@),
    {
        if *name == "send".to_owned() {
            Some(Direction::Send)
        } else if *name == "recv".to_owned() || *name == "receive".to_owned() {
            Some(Direction::Recv)
        } else if *name == "both".to_owned() || *name == "duplex".to_owned() {
            Some(Direction::Both)
        } else {
            None
        }
    }

    /// The direction with this name, in upper or lower case.
    pub fn from_str(s: &str) -> (r: Result<Self, UnknownName>)
        ensures
            Direction::read_as(r, s@, Direction::named(lowercase(s@))),
            all_ascii(s@) ==> Direction::read_as(r, s@, Direction::named(ascii_lowercase(s@))),
    {
        match Direction::by_name(&to_lowercase(s)) {
            Some(choice) => Ok(choice),
            None => Err(unknown("Unknown direction ", s, " (send|recv|both)")),
        }
    }

    /// The name of the direction.
    pub open spec fn name_spec(self) -> Seq<char> {
        match self {
            Direction::Send => "send"@,
            Direction::Recv => "recv"@,
            Direction::Both => "both"@,
        }
    }

    /// The name of the direction.
    pub fn name(self) -> (text: &'static str)
        ensures
            text@ == self.name_spec(),
    {
        match self {
            Direction::Send => "send",
            Direction::Recv => "recv",
            Direction::Both => "both",
        }
    }
}

impl FromStr for Direction {
    type Err = UnknownName;

    fn from_str(s: &str) -> (r: Result<Self, UnknownName>)
        ensures
            Direction::read_as(r, s@, Direction::named(lowercase(s@))),
            all_ascii(s@) ==> Direction::read_as(r, s@, Direction::named(ascii_lowercase(s@))),
    {
        Direction::from_str(s)
    }
}

impl SendMode {
    /// The send mode that a lowercase name stands for, if it is one.
    pub open spec fn named(name: Seq<char>) -> Option<Self> {
        if name == "drop"@ {
            Some(SendMode::Drop)
        } else if name == "wait"@ {
            Some(SendMode::Wait)
        } else {
            None
        }
    }

    /// What comes of reading `text`, which stands for `found` if for any send mode.
    pub open spec fn read_as(
        r: Result<Self, UnknownName>,
        text: Seq<char>,
        found: Option<Self>,
    ) -> bool {
        match found {
            Some(choice) => r == Ok::<_, UnknownName>(choice),
            None => r matches Err(e) && e.message@ == "Unknown send-mode "@ + text + " (drop|wait)"@,
        }
    }

    /// The send mode that a lowercase name stands for, if it is one.
    pub fn by_name(name: &String) -> (r: Option<Self>)
        ensures
            r == SendMode::named(name@),
    {
        if *name == "drop".to_owned() {
            Some(SendMode::Drop)
        } else if *name == "wait".to_owned() {
            Some(SendMode::Wait)
        } else {
            None
        }
    }

    /// The send mode with this name, in upper or lower case.
    pub fn from_str(s: &str) -> (r: Result<Self, UnknownName>)
        ensures
            SendMode::read_as(r, s@, SendMode::named(lowercase(s@))),
            all_ascii(s@) ==> SendMode::read_as(r, s@, SendMode::named(ascii_lowercase(s@))),
    {
        match SendMode::by_name(&to_lowercase(s)) {
            Some(choice) => Ok(choice),
            None => Err(unknown("Unknown send-mode ", s, " (drop|wait)")),
        }
    }

    /// The name of the send mode.
    pub open spec fn name_spec(self) -> Seq<char> {
        match self {
            SendMode::Drop => "drop"@,
            SendMode::Wait => "wait"@,
        }
    }

    /// The name of the send mode.
    pub fn name(self) -> (text: &'static str)
        ensures
            text@ == self.name_spec(),
    {
        match self {
            SendMode::Drop => "drop",
            SendMode::Wait => "wait",
        }
    }
}

impl FromStr for SendMode {
    type Err = UnknownName;

    fn from_str(s: &str) -> (r: Result<Self, UnknownName>)
        ensures
            SendMode::read_as(r, s@, SendMode::named(lowercase(s@))),
            all_ascii(s@) ==> SendMode::read_as(r, s@, SendMode::named(ascii_lowercase(s@))),
    {
        SendMode::from_str(s)
    }
}

impl Congestion {
    /// The congestion controller that a lowercase name stands for, if it is one.
    pub open spec fn named(name: Seq<char>) -> Option<Self> {
        if name == "cubic"@ {
            Some(Congestion::Cubic)
        } else if name == "newreno"@ || name == "new-reno"@ || name == "reno"@ {
            Some(Congestion::NewReno)
        } else if name == "bbr3"@ || name == "bbr"@ {
            Some(Congestion::Bbr3)
        } else {
            None
        }
    }

    /// What comes of reading `text`, which stands for `found` if for any congestion controller.
    pub open spec fn read_as(
        r: Result<Self, UnknownName>,
        text: Seq<char>,
        found: Option<Self>,
    ) -> bool {
        match found {
            Some(choice) => r == Ok::<_, UnknownName>(choice),
            None => r matches Err(e) && e.message@ == "Unknown congestion "@ + text + " (cubic|newreno|bbr3)"@,
        }
    }

    /// The congestion controller that a lowercase name stands for, if it is one.
    pub fn by_name(name: &String) -> (r: Option<Self>)
        ensures
            r == Congestion::named(name@),
    {
        if *name == "cubic".to_owned() {
            Some(Congestion::Cubic)
        } else if *name == "newreno".to_owned() || *name == "new-reno".to_owned() || *name == "reno".to_owned() {
            Some(Congestion::NewReno)
        } else if *name == "bbr3".to_owned() || *name == "bbr".to_owned() {
            Some(Congestion::Bbr3)
        } else {
            None
        }
    }

    /// The congestion controller with this name, in upper or lower case.
    pub fn from_str(s: &str) -> (r: Result<Self, UnknownName>)
        ensures
            Congestion::read_as(r, s@, Congestion::named(lowercase(s@))),
            all_ascii(s@) ==> Congestion::read_as(r, s@, Congestion::named(ascii_lowercase(s@))),
    {
        match Congestion::by_name(&to_lowercase(s)) {
            Some(choice) => Ok(choice),
            None => Err(unknown("Unknown congestion ", s, " (cubic|newreno|bbr3)")),
        }
    }

    /// The name of the congestion controller.
    pub open spec fn name_spec(self) -> Seq<char> {
        match self {
            Congestion::Cubic => "cubic"@,
            Congestion::NewReno => "newreno"@,
            Congestion::Bbr3 => "bbr3"@,
        }
    }

    /// The name of the congestion controller.
    pub fn name(self) -> (text: &'static str)
        ensures
            text@ == self.name_spec(),
    {
        match self {
            Congestion::Cubic => "cubic",
            Congestion::NewReno => "newreno",
            Congestion::Bbr3 => "bbr3",
        }
    }
}

impl FromStr for Congestion {
    type Err = UnknownName;

    fn from_str(s: &str) -> (r: Result<Self, UnknownName>)
        ensures
            Congestion::read_as(r, s@, Congestion::named(lowercase(s@))),
            all_ascii(s@) ==> Congestion::read_as(r, s@, Congestion::named(ascii_lowercase(s@))),
    {
        Congestion::from_str(s)
    }
}

/// Whether `s` is an ASCII text that lowercasing leaves alone.
pub open spec fn is_plain(s: Seq<char>) -> bool {
    all_ascii(s) && ascii_lowercase(s) == s
}

/// The name of a runtime type reads back as that runtime type.
pub proof fn law_runtime_type_reads_back(choice: RuntimeType)
    ensures
        RuntimeType::named(choice.name_spec()) == Some(choice),
        is_plain(choice.name_spec()),
{
    reveal_strlit("tokio");
    reveal_strlit("tokio-current-thread");
    let name = choice.name_spec();
    assert(ascii_lowercase(name) =~= name);
}

/// The name of a cipher suite reads back as that cipher suite.
pub proof fn law_cipher_suite_reads_back(choice: CipherSuite)
    ensures
        CipherSuite::named(choice.name_spec()) == Some(choice),
        is_plain(choice.name_spec()),
{
    reveal_strlit("aes128");
    reveal_strlit("aes256");
    reveal_strlit("chacha20");
    assert("aes128"@[3] != "aes256"@[3]);
    let name = choice.name_spec();
    assert(ascii_lowercase(name) =~= name);
}

/// The name of a direction reads back as that direction.
pub proof fn law_direction_reads_back(choice: Direction)
    ensures
        Direction::named(choice.name_spec()) == Some(choice),
        is_plain(choice.name_spec()),
{
    reveal_strlit("send");
    reveal_strlit("recv");
    reveal_strlit("receive");
    reveal_strlit("both");
    reveal_strlit("duplex");
    assert("send"@[0] != "recv"@[0] && "send"@[0] != "both"@[0] && "recv"@[0] != "both"@[0]);
    let name = choice.name_spec();
    assert(ascii_lowercase(name) =~= name);
}

/// The name of a send mode reads back as that send mode.
pub proof fn law_send_mode_reads_back(choice: SendMode)
    ensures
        SendMode::named(choice.name_spec()) == Some(choice),
        is_plain(choice.name_spec()),
{
    reveal_strlit("drop");
    reveal_strlit("wait");
    assert("drop"@[0] != "wait"@[0]);
    let name = choice.name_spec();
    assert(ascii_lowercase(name) =~= name);
}

/// The name of a congestion controller reads back as that congestion controller.
pub proof fn law_congestion_reads_back(choice: Congestion)
    ensures
        Congestion::named(choice.name_spec()) == Some(choice),
        is_plain(choice.name_spec()),
{
    reveal_strlit("cubic");
    reveal_strlit("newreno");
    reveal_strlit("new-reno");
    reveal_strlit("reno");
    reveal_strlit("bbr3");
    reveal_strlit("bbr");
    assert("reno"@[0] != "bbr3"@[0]);
    let name = choice.name_spec();
    assert(ascii_lowercase(name) =~= name);
}

/// A text is read as a runtime type exactly where it is one of its names in lower case; any
/// other is refused with words that quote it.
pub proof fn law_runtime_type_names_are_these(
    s: &str,
    r: Result<RuntimeType, UnknownName>,
    lower: Seq<char>,
)
    requires
        call_ensures(RuntimeType::from_str, (s,), r),
        lower == lowercase(s@) || all_ascii(s@) && lower == ascii_lowercase(s@),
    ensures
        r == Ok::<_, UnknownName>(RuntimeType::Tokio) <==> lower == "tokio"@,
        r == Ok::<_, UnknownName>(RuntimeType::TokioCurrentThread) <==> lower
            == "tokio-current-thread"@,
        r matches Err(e) ==> e.message@ == "Unknown runtime type "@ + s@ + ""@,
        r is Err <==> !(lower == "tokio"@ || lower == "tokio-current-thread"@),
{
    reveal_strlit("tokio");
    reveal_strlit("tokio-current-thread");
    assert("tokio"@.len() != "tokio-current-thread"@.len());
}

/// The name of a runtime type, as it is shown.
pub proof fn law_runtime_type_is_called(choice: RuntimeType, text: &'static str)
    requires
        call_ensures(RuntimeType::name, (choice,), text),
    ensures
        choice == RuntimeType::Tokio ==> text@ == "tokio"@,
        choice == RuntimeType::TokioCurrentThread ==> text@ == "tokio-current-thread"@,
{
}

/// A text is read as a cipher suite exactly where it is one of its names in lower case; any
/// other is refused with words that quote it.
pub proof fn law_cipher_suite_names_are_these(
    s: &str,
    r: Result<CipherSuite, UnknownName>,
    lower: Seq<char>,
)
    requires
        call_ensures(CipherSuite::from_str, (s,), r),
        lower == lowercase(s@) || all_ascii(s@) && lower == ascii_lowercase(s@),
    ensures
        r == Ok::<_, UnknownName>(CipherSuite::Aes128) <==> lower == "aes128"@,
        r == Ok::<_, UnknownName>(CipherSuite::Aes256) <==> lower == "aes256"@,
        r == Ok::<_, UnknownName>(CipherSuite::Chacha20) <==> lower == "chacha20"@,
        r matches Err(e) ==> e.message@ == "Unknown cipher suite "@ + s@ + ""@,
        r is Err <==> !(lower == "aes128"@ || lower == "aes256"@ || lower == "chacha20"@),
{
    reveal_strlit("aes128");
    reveal_strlit("aes256");
    reveal_strlit("chacha20");
    assert("aes128"@[3] != "aes256"@[3]);
    assert("aes128"@.len() != "chacha20"@.len());
    assert("aes256"@.len() != "chacha20"@.len());
}

/// The name of a cipher suite, as it is shown.
pub proof fn law_cipher_suite_is_called(choice: CipherSuite, text: &'static str)
    requires
        call_ensures(CipherSuite::name, (choice,), text),
    ensures
        choice == CipherSuite::Aes128 ==> text@ == "aes128"@,
        choice == CipherSuite::Aes256 ==> text@ == "aes256"@,
        choice == CipherSuite::Chacha20 ==> text@ == "chacha20"@,
{
}

/// A text is read as a direction exactly where it is one of its names in lower case; any
/// other is refused with words that quote it.
pub proof fn law_direction_names_are_these(
    s: &str,
    r: Result<Direction, UnknownName>,
    lower: Seq<char>,
)
    requires
        call_ensures(Direction::from_str, (s,), r),
        lower == lowercase(s@) || all_ascii(s@) && lower == ascii_lowercase(s@),
    ensures
        r == Ok::<_, UnknownName>(Direction::Send) <==> lower == "send"@,
        r == Ok::<_, UnknownName>(Direction::Recv) <==> lower == "recv"@ || lower == "receive"@,
        r == Ok::<_, UnknownName>(Direction::Both) <==> lower == "both"@ || lower == "duplex"@,
        r matches Err(e) ==> e.message@ == "Unknown direction "@ + s@ + " (send|recv|both)"@,
        r is Err <==> !(lower == "send"@ || lower == "recv"@ || lower == "receive"@ || lower
            == "both"@ || lower == "duplex"@),
{
    reveal_strlit("send");
    reveal_strlit("recv");
    reveal_strlit("receive");
    reveal_strlit("both");
    reveal_strlit("duplex");
    assert("send"@[0] != "recv"@[0]);
    assert("send"@.len() != "receive"@.len());
    assert("send"@[0] != "both"@[0]);
    assert("send"@.len() != "duplex"@.len());
    assert("recv"@[0] != "both"@[0]);
    assert("recv"@.len() != "duplex"@.len());
    assert("receive"@.len() != "both"@.len());
    assert("receive"@.len() != "duplex"@.len());
}

/// The name of a direction, as it is shown.
pub proof fn law_direction_is_called(choice: Direction, text: &'static str)
    requires
        call_ensures(Direction::name, (choice,), text),
    ensures
        choice == Direction::Send ==> text@ == "send"@,
        choice == Direction::Recv ==> text@ == "recv"@,
        choice == Direction::Both ==> text@ == "both"@,
{
}

/// A text is read as a send mode exactly where it is one of its names in lower case; any
/// other is refused with words that quote it.
pub proof fn law_send_mode_names_are_these(
    s: &str,
    r: Result<SendMode, UnknownName>,
    lower: Seq<char>,
)
    requires
        call_ensures(SendMode::from_str, (s,), r),
        lower == lowercase(s@) || all_ascii(s@) && lower == ascii_lowercase(s@),
    ensures
        r == Ok::<_, UnknownName>(SendMode::Drop) <==> lower == "drop"@,
        r == Ok::<_, UnknownName>(SendMode::Wait) <==> lower == "wait"@,
        r matches Err(e) ==> e.message@ == "Unknown send-mode "@ + s@ + " (drop|wait)"@,
        r is Err <==> !(lower == "drop"@ || lower == "wait"@),
{
    reveal_strlit("drop");
    reveal_strlit("wait");
    assert("drop"@[0] != "wait"@[0]);
}

/// The name of a send mode, as it is shown.
pub proof fn law_send_mode_is_called(choice: SendMode, text: &'static str)
    requires
        call_ensures(SendMode::name, (choice,), text),
    ensures
        choice == SendMode::Drop ==> text@ == "drop"@,
        choice == SendMode::Wait ==> text@ == "wait"@,
{
}

/// A text is read as a congestion controller exactly where it is one of its names in lower case; any
/// other is refused with words that quote it.
pub proof fn law_congestion_names_are_these(
    s: &str,
    r: Result<Congestion, UnknownName>,
    lower: Seq<char>,
)
    requires
        call_ensures(Congestion::from_str, (s,), r),
        lower == lowercase(s@) || all_ascii(s@) && lower == ascii_lowercase(s@),
    ensures
        r == Ok::<_, UnknownName>(Congestion::Cubic) <==> lower == "cubic"@,
        r == Ok::<_, UnknownName>(Congestion::NewReno) <==> lower == "newreno"@ || lower
            == "new-reno"@ || lower == "reno"@,
        r == Ok::<_, UnknownName>(Congestion::Bbr3) <==> lower == "bbr3"@ || lower == "bbr"@,
        r matches Err(e) ==> e.message@ == "Unknown congestion "@ + s@ + " (cubic|newreno|bbr3)"@,
        r is Err <==> !(lower == "cubic"@ || lower == "newreno"@ || lower == "new-reno"@ || lower
            == "reno"@ || lower == "bbr3"@ || lower == "bbr"@),
{
    reveal_strlit("cubic");
    reveal_strlit("newreno");
    reveal_strlit("new-reno");
    reveal_strlit("reno");
    reveal_strlit("bbr3");
    reveal_strlit("bbr");
    assert("cubic"@.len() != "newreno"@.len());
    assert("cubic"@.len() != "new-reno"@.len());
    assert("cubic"@.len() != "reno"@.len());
    assert("cubic"@.len() != "bbr3"@.len());
    assert("cubic"@.len() != "bbr"@.len());
    assert("newreno"@.len() != "bbr3"@.len());
    assert("newreno"@.len() != "bbr"@.len());
    assert("new-reno"@.len() != "bbr3"@.len());
    assert("new-reno"@.len() != "bbr"@.len());
    assert("reno"@[0] != "bbr3"@[0]);
    assert("reno"@.len() != "bbr"@.len());
}

/// The name of a congestion controller, as it is shown.
pub proof fn law_congestion_is_called(choice: Congestion, text: &'static str)
    requires
        call_ensures(Congestion::name, (choice,), text),
    ensures
        choice == Congestion::Cubic ==> text@ == "cubic"@,
        choice == Congestion::NewReno ==> text@ == "newreno"@,
        choice == Congestion::Bbr3 ==> text@ == "bbr3"@,
{
}

/// Lowercasing an ASCII text replaces the letters A to Z, one by one, and nothing else.
pub proof fn law_ascii_letters_are_replaced(s: Seq<char>, i: int)
    requires
        all_ascii(s),
        0 <= i < s.len(),
    ensures
        ascii_lowercase(s).len() == s.len(),
        'A' <= s[i] <= 'Z' ==> ascii_lowercase(s)[i] as u32 == s[i] as u32 + 32,
        !('A' <= s[i] <= 'Z') ==> ascii_lowercase(s)[i] == s[i],
        (s[i] as u32) < 128,
{
}

/// A text is ASCII exactly where all of its characters are below 128.
pub proof fn law_ascii_is_below_128(s: Seq<char>)
    ensures
        all_ascii(s) <==> forall|i: int| 0 <= i < s.len() ==> (#[trigger] s[i] as u32) < 128,
{
}

} // verus!
