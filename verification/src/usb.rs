//! The USB serial console of a Boppo device.

use vstd::prelude::*;
use vstd::utf8::*;

use crate::text;
use crate::text::{contains, join2, join3, join5};

verus! {

/// Espressif USB Vendor ID used on all Boppo devices.
pub const BOPPO_USB_VID: u16 = 0x303A;

/// What a USB serial port says of itself.
#[derive(Debug)]
pub struct UsbIdentity {
    pub vid: u16,
    pub manufacturer: Option<String>,
    pub product: Option<String>,
}

/// A serial port of the host.
#[derive(Debug)]
pub struct SerialPortEntry {
    pub port_name: String,
    /// Present where the port is a USB port.
    pub usb: Option<UsbIdentity>,
}

/// Whether an optional name contains "Boppo".
pub open spec fn names_boppo(name: Option<String>) -> bool {
    name matches Some(n) && text::has_substring(n@, "Boppo"@)
}

/// Whether a serial port is that of a Boppo device: a USB port with the vendor id and
/// a manufacturer or product that contains "Boppo".
pub open spec fn is_boppo_port(port: SerialPortEntry) -> bool {
    port.usb matches Some(usb) && usb.vid == BOPPO_USB_VID && (names_boppo(usb.manufacturer)
        || names_boppo(usb.product))
}

fn mentions_boppo(name: &Option<String>) -> (r: bool)
    ensures
        r == names_boppo(*name),
{
    match name {
        Some(n) => contains(n.as_str(), "Boppo"),
        None => false,
    }
}

/// Searches the serial ports for a Boppo device and returns the name of the first.
///
/// Matches on the Espressif VID (`0x303A`) plus a manufacturer or product
/// string containing "Boppo".
pub fn find_boppo_port(ports: &Vec<SerialPortEntry>) -> (r: Option<String>)
    ensures
        match r {
            Some(name) => exists|i: int|
                0 <= i < ports@.len() && is_boppo_port(#[trigger] ports@[i]) && ports@[i].port_name
                    == name && forall|j: int| 0 <= j < i ==> !is_boppo_port(#[trigger] ports@[j]),
            None => forall|i: int| 0 <= i < ports@.len() ==> !is_boppo_port(#[trigger] ports@[i]),
        },
{
    let mut i: usize = 0;
    while i < ports.len()
        invariant
            i <= ports@.len(),
            forall|j: int| 0 <= j < i ==> !is_boppo_port(#[trigger] ports@[j]),
        decreases ports@.len() - i,
    {
        if let Some(usb) = &ports[i].usb {
            if usb.vid == BOPPO_USB_VID {
                if mentions_boppo(&usb.manufacturer) || mentions_boppo(&usb.product) {
                    assert(is_boppo_port(ports@[i as int]));
                    return Some(ports[i].port_name.clone());
                }
            }
        }
        i = i + 1;
    }
    None
}

/// The line that sends a command to the device.
pub fn command_line(command: &str) -> (r: String)
    ensures
        r@ == command@ + "\n"@,
{
    join2(command, "\n")
}

/// The line that adds a Wi-Fi network: an open one without a password or with an
/// empty one.
pub open spec fn wifi_command(ssid: Seq<char>, password: Option<Seq<char>>) -> Seq<char> {
    match password {
        Some(pw) => if pw.len() > 0 {
            "add_wifi_network '"@ + ssid + "' '"@ + pw + "'\n"@
        } else {
            "add_wifi_network '"@ + ssid + "'\n"@
        },
        None => "add_wifi_network '"@ + ssid + "'\n"@,
    }
}

/// The line that sends Wi-Fi credentials to the device.
pub fn wifi_line(ssid: &str, password: Option<&str>) -> (r: String)
    ensures
        r@ == wifi_command(
            ssid@,
            match password {
                Some(pw) => Some(pw@),
                None => None,
            },
        ),
{
    match password {
        Some(pw) => if !pw.is_empty() {
            join5("add_wifi_network '", ssid, "' '", pw, "'\n")
        } else {
            join3("add_wifi_network '", ssid, "'\n")
        },
        None => join3("add_wifi_network '", ssid, "'\n"),
    }
}

/// An empty password is the same as none.
pub proof fn law_empty_password_is_open_network(ssid: Seq<char>)
    ensures
        wifi_command(ssid, Some(Seq::empty())) == wifi_command(ssid, None),
{
}

/// What a read from the port gave.
#[derive(Debug)]
pub enum PortRead {
    /// Some bytes; none at the end of the stream.
    Bytes(Vec<u8>),
    /// No byte came in time.
    TimedOut,
    /// An error other than a timeout.
    Failed,
}

/// How a response goes on after a read.
#[derive(Debug, Clone, Copy, PartialEq, Eq, Structural)]
pub enum ReadProgress {
    /// More may come: read again.
    More,
    /// The response is complete.
    Complete,
    /// Reading failed.
    Broken,
}

/// The response to a command, as it comes in.
#[derive(Debug)]
pub struct Response {
    pub received: Vec<u8>,
}

/// What came in after a read, and how the response goes on. The response is complete
/// once a read times out or the stream ends.
pub open spec fn after_read(received: Seq<u8>, read: PortRead) -> (Seq<u8>, ReadProgress) {
    match read {
        PortRead::Bytes(bytes) => if bytes@.len() > 0 {
            (received + bytes@, ReadProgress::More)
        } else {
            (received, ReadProgress::Complete)
        },
        PortRead::TimedOut => (received, ReadProgress::Complete),
        PortRead::Failed => (received, ReadProgress::Broken),
    }
}

/// What came in after reads that follow one another as long as more may come, and how
/// the response goes on.
pub open spec fn after_reads(received: Seq<u8>, reads: Seq<PortRead>) -> (Seq<u8>, ReadProgress)
    decreases reads.len(),
{
    if reads.len() == 0 {
        (received, ReadProgress::More)
    } else {
        let (now, progress) = after_read(received, reads.first());
        if progress == ReadProgress::More {
            after_reads(now, reads.drop_first())
        } else {
            (now, progress)
        }
    }
}

/// Chunks of bytes, one after the other.
pub open spec fn concatenated(chunks: Seq<Vec<u8>>) -> Seq<u8>
    decreases chunks.len(),
{
    if chunks.len() == 0 {
        Seq::empty()
    } else {
        chunks.first()@ + concatenated(chunks.drop_first())
    }
}

/// After reads of chunks that are not empty, and one that ends the response, what came
/// in is the chunks one after the other. The response is complete after a timeout or at
/// the end of the stream, and broken after any other error; what would be read later is
/// not asked for.
pub proof fn law_response_is_what_was_read(
    received: Seq<u8>,
    chunks: Seq<Vec<u8>>,
    last: PortRead,
    later: Seq<PortRead>,
)
    requires
        forall|i: int| 0 <= i < chunks.len() ==> (#[trigger] chunks[i])@.len() > 0,
        last matches PortRead::Bytes(bytes) ==> bytes@.len() == 0,
    ensures
        after_reads(
            received,
            chunks.map_values(|c: Vec<u8>| PortRead::Bytes(c)) + seq![last] + later,
        ) == (
            received + concatenated(chunks),
            if last is Failed {
                ReadProgress::Broken
            } else {
                ReadProgress::Complete
            },
        ),
    decreases chunks.len(),
{
    let f = |c: Vec<u8>| PortRead::Bytes(c);
    let reads = chunks.map_values(f) + seq![last] + later;
    if chunks.len() == 0 {
        assert(reads.first() == last);
        assert(received + concatenated(chunks) =~= received);
    } else {
        let rest = chunks.drop_first();
        let now = received + chunks.first()@;
        assert(chunks[0]@.len() > 0);
        assert forall|i: int| 0 <= i < rest.len() implies (#[trigger] rest[i])@.len() > 0 by {
            assert(rest[i] == chunks[i + 1]);
        }
        law_response_is_what_was_read(now, rest, last, later);
        assert(reads.first() == PortRead::Bytes(chunks[0]));
        assert(reads.drop_first() =~= rest.map_values(f) + seq![last] + later);
        assert(now + concatenated(rest) =~= received + concatenated(chunks));
    }
}

impl Response {
    /// A response of which nothing came in yet.
    pub fn new() -> (r: Response)
        ensures
            r.received@ == Seq::<u8>::empty(),
    {
        Response { received: Vec::new() }
    }

    /// Takes in what a read gave. The response is complete once a read times out or
    /// the stream ends.
    pub fn take(&mut self, read: PortRead) -> (r: ReadProgress)
        ensures
            (final(self).received@, r) == after_read(old(self).received@, read),
    {
        match read {
            PortRead::Bytes(bytes) => if bytes.len() > 0 {
                let mut bytes = bytes;
                self.received.append(&mut bytes);
                ReadProgress::More
            } else {
                ReadProgress::Complete
            },
            PortRead::TimedOut => ReadProgress::Complete,
            PortRead::Failed => ReadProgress::Broken,
        }
    }

    /// The text of the response. Bytes that are not UTF-8 are replaced.
    pub fn text(&self) -> (r: String)
        ensures
            r@ == lossy_text(self.received@),
            valid_utf8(self.received@) ==> r@ == decode_utf8(self.received@),
    {
        from_utf8_lossy(&self.received)
    }
}

/// The text that `String::from_utf8_lossy` makes of bytes.
pub uninterp spec fn lossy_text(bytes: Seq<u8>) -> Seq<char>;

/// `String::from_utf8_lossy`: the text of the bytes, with replacement characters for
/// what is not UTF-8. Of bytes that are UTF-8 it is the text that they encode.
#[verifier::external_body]
fn from_utf8_lossy(bytes: &Vec<u8>) -> (r: String)
    ensures
        r@ == lossy_text(bytes@),
        valid_utf8(bytes@) ==> r@ == decode_utf8(bytes@),
{
    String::from_utf8_lossy(bytes).into_owned()
}

} // verus!
