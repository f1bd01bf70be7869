//! What goes over the wire to a device and comes back, for every input: addresses, replies,
//! listings, the lines of the serial console, and announcements.

use vstd::prelude::*;
use vstd::utf8::*;

use crate::device;
use crate::device::{
    pairing_request, serial_of_hostname, Browse, BrowseEvent, DiscoveredDevice, PairingRequest,
};
use crate::listing;
use crate::listing::{
    add_host_entry, device_entries, parse_read_dir, process_read_dir_line, DirEntry, NonUtf8Name,
};
use crate::name_map;
use crate::name_map::NameMap;
use crate::remote::{
    read_dir_body, read_dir_reply, read_dir_url, remove_file_reply, remove_file_url, upload_url,
    ReadDirReply,
};
use crate::sync::FileAttributes;
use crate::text;
use crate::text::{decimal_of, lines_of};
use crate::text_laws;
use crate::usb;
use crate::usb::{
    command_line, find_boppo_port, wifi_line, PortRead, ReadProgress, Response, SerialPortEntry,
};

verus! {

/// The address of a request is the device's, then what is asked for, then the path.
pub proof fn law_addresses_end_in_the_path(
    url: &str,
    path: &str,
    listed: String,
    uploaded: String,
    removed: String,
)
    requires
        call_ensures(read_dir_url, (url, path), listed),
        call_ensures(upload_url, (url, path), uploaded),
        call_ensures(remove_file_url, (url, path), removed),
    ensures
        listed@ == url@ + "/files/read-dir?path="@ + path@,
        uploaded@ == url@ + "/files/upload?path="@ + path@,
        removed@ == url@ + "/files/remove-file?path="@ + path@,
{
}

/// A directory is listed with status 200, holds nothing with 404, and could not be read with
/// any other, which is told in decimal.
pub proof fn law_listing_status_is_told(
    status: u16,
    url: &str,
    r: ReadDirReply,
    code: String,
)
    requires
        call_ensures(read_dir_reply, (status, url), r),
        call_ensures(decimal_of, (status as u64,), code),
    ensures
        status == 200 <==> r is Listing,
        status == 404 <==> r is Absent,
        r matches ReadDirReply::Absent(m) ==> m.pairs().len() == 0,
        r matches ReadDirReply::Failed(m) ==> m@ == "read-dir returned status code of "@ + code@
            + ": "@ + url@,
{
}

/// A file is removed with status 200 and no other, which is told in decimal.
pub proof fn law_removal_status_is_told(status: u16, r: Result<(), String>, code: String)
    requires
        call_ensures(remove_file_reply, (status,), r),
        call_ensures(decimal_of, (status as u64,), code),
    ensures
        status == 200 <==> r is Ok,
        r matches Err(m) ==> m@ == "remove-file returned status code of "@ + code@,
{
}

/// Whether a line lists an entry: its first word is `d` for a directory, its second the
/// size, its fourth the name.
pub open spec fn lists_entry(line: Seq<char>, name: Seq<char>, attr: FileAttributes) -> bool {
    let w = text::words(line);
    &&& w.len() >= 4
    &&& text_laws::reads_as(w[1], Some(attr.size))
    &&& attr.is_dir <==> w[0].len() == 1 && w[0][0] == 'd'
    &&& name == w[3]
}

/// Whether a line lists some entry: it has four words or more, and the second is a number.
pub open spec fn is_entry_line(line: Seq<char>) -> bool {
    text::words(line).len() >= 4 && !text_laws::reads_as(text::words(line)[1], None)
}

proof fn lemma_entry_line(line: Seq<char>)
    ensures
        is_entry_line(line) <==> listing::read_dir_line(line) is Some,
        listing::read_dir_line(line) matches Some((name, attr)) ==> lists_entry(line, name, attr),
{
    let w = text::words(line);
    if w.len() >= 4 {
        text_laws::lemma_parsed_is_read(w[1]);
        reveal_strlit("d");
        if w[0].len() == 1 && w[0][0] == 'd' {
            assert(w[0] =~= "d"@);
        }
    }
}

/// A line is read as the entry that it lists, and is refused if and only if it lists none.
pub proof fn law_listed_entry_is_read(line: &str, r: Option<(String, FileAttributes)>)
    requires
        call_ensures(process_read_dir_line, (line,), r),
    ensures
        r is Some <==> is_entry_line(line@),
        r matches Some((name, attr)) ==> lists_entry(line@, name@, attr),
{
    lemma_entry_line(line@);
}

/// Whether a line begins with `total`.
pub open spec fn is_total(line: Seq<char>) -> bool {
    line.len() >= 5 && line[0] == 't' && line[1] == 'o' && line[2] == 't' && line[3] == 'a'
        && line[4] == 'l'
}

proof fn lemma_is_total(line: Seq<char>)
    ensures
        is_total(line) <==> "total"@.is_prefix_of(line),
{
    reveal_strlit("total");
    if is_total(line) {
        assert("total"@ =~= line.subrange(0, 5));
    }
    if "total"@.is_prefix_of(line) {
        let head = line.subrange(0, "total"@.len() as int);
        assert(head[0] == line[0] && head[1] == line[1] && head[2] == line[2] && head[3] == line[3]
            && head[4] == line[4]);
    }
}

/// The entries that lines list.
pub open spec fn entries_of(lines: Seq<Seq<char>>) -> Seq<(Seq<char>, FileAttributes)> {
    lines.map_values(|l: Seq<char>| listing::read_dir_line(l)->0)
}

proof fn lemma_listing_is_read(
    lines: Seq<Seq<char>>,
    done: Seq<(Seq<char>, FileAttributes)>,
    k: int,
)
    requires
        0 <= k <= lines.len(),
        k < lines.len() ==> is_total(lines[k]),
        forall|j: int| 0 <= j < k ==> !is_total(#[trigger] lines[j]),
    ensures
        match listing::read_dir_lines(lines, name_map::collected(done)) {
            Ok(pairs) => {
                &&& forall|j: int| 0 <= j < k ==> is_entry_line(#[trigger] lines[j])
                &&& pairs == name_map::collected(done + entries_of(lines.take(k)))
            },
            Err(line) => exists|j: int|
                0 <= j < k && (#[trigger] lines[j]) == line && !is_entry_line(line) && forall|i: int|
                    0 <= i < j ==> is_entry_line(#[trigger] lines[i]),
        },
    decreases lines.len(),
{
    if lines.len() > 0 {
        lemma_is_total(lines[0]);
        lemma_entry_line(lines[0]);
    }
    if k == 0 {
        assert(done + entries_of(lines.take(0)) =~= done);
    } else {
        let rest = lines.drop_first();
        assert(!is_total(lines[0]));
        assert forall|j: int| 0 <= j < rest.len() implies #[trigger] rest[j] == lines[j + 1] by {}
        match listing::read_dir_line(lines[0]) {
            Some((name, attr)) => {
                let more = done.push((name, attr));
                assert(more.drop_last() =~= done);
                lemma_listing_is_read(rest, more, k - 1);
                assert(entries_of(lines.take(k)) =~= seq![(name, attr)] + entries_of(
                    rest.take(k - 1),
                ));
                assert(more + entries_of(rest.take(k - 1)) =~= done + entries_of(lines.take(k)));
                assert forall|j: int| 0 < j < k implies #[trigger] lines[j] == rest[j - 1] by {}
                if let Err(line) = listing::read_dir_lines(rest, name_map::collected(more)) {
                    let j = choose|j: int|
                        0 <= j < k - 1 && (#[trigger] rest[j]) == line && forall|i: int|
                            0 <= i < j ==> is_entry_line(#[trigger] rest[i]);
                    assert(lines[j + 1] == line);
                    assert forall|i: int| 0 <= i < j + 1 implies is_entry_line(#[trigger] lines[i]) by {
                        if i > 0 {
                            assert(is_entry_line(rest[i - 1]));
                        }
                    }
                }
            },
            None => {
                assert(lines[0] == lines.first());
            },
        }
    }
}

/// The body of a listing is read up to its end or to a line that begins with `total`: each
/// line up to there is an entry of the listing, the last one with a name counts, and there
/// is no other entry. The first line that is none is told.
pub proof fn law_listing_body_is_read(
    body: &str,
    r: Result<NameMap<FileAttributes>, String>,
    lines: Vec<String>,
    k: int,
    i: int,
    name: Seq<char>,
    attr: FileAttributes,
)
    requires
        call_ensures(read_dir_body, (body,), r),
        call_ensures(lines_of, (body,), lines),
        0 <= k <= lines@.len(),
        k < lines@.len() ==> is_total(lines@[k]@),
        forall|j: int| 0 <= j < k ==> !is_total(#[trigger] lines@[j]@),
    ensures
        r is Ok <==> forall|j: int| 0 <= j < k ==> is_entry_line(#[trigger] lines@[j]@),
        r matches Err(m) ==> exists|j: int|
            0 <= j < k && !is_entry_line(#[trigger] lines@[j]@) && m@
                == "Failed to parse read-dir line: "@ + lines@[j]@ && forall|h: int|
                0 <= h < j ==> is_entry_line(#[trigger] lines@[h]@),
        r matches Ok(m) ==> 0 <= i < k && lists_entry(lines@[i]@, name, attr) && (forall|j: int|
            i < j < k ==> !lists_name(#[trigger] lines@[j]@, name)) ==> m@.contains_key(name)
            && m@[name] == attr,
        r matches Ok(m) ==> m@.contains_key(name) ==> exists|j: int|
            0 <= j < k && lists_name(#[trigger] lines@[j]@, name),
{
    let all = text::lines(body@);
    let none = Seq::<(Seq<char>, FileAttributes)>::empty();
    assert(text::views(lines@) == all);
    assert forall|j: int| 0 <= j < all.len() implies #[trigger] all[j] == lines@[j]@ by {
        assert(text::views(lines@)[j] == lines@[j]@);
    }
    assert forall|j: int| 0 <= j < k implies !is_total(#[trigger] all[j]) by {
        assert(!is_total(lines@[j]@));
    }
    lemma_listing_is_read(all, none, k);
    let entries = entries_of(all.take(k));
    assert(none + entries =~= entries);
    match r {
        Ok(m) => {
            assert forall|j: int| 0 <= j < k implies is_entry_line(#[trigger] lines@[j]@) && lists_entry(
                lines@[j]@,
                entries[j].0,
                entries[j].1,
            ) by {
                assert(is_entry_line(all[j]));
                lemma_entry_line(all[j]);
            }
            text_laws::law_last_entry_counts(entries, name, i);
            if 0 <= i < k && lists_entry(lines@[i]@, name, attr) {
                assert(is_entry_line(lines@[i]@));
                assert(entries[i] == (name, attr));
                if forall|j: int| i < j < k ==> !lists_name(#[trigger] lines@[j]@, name) {
                    assert forall|j: int| i < j < entries.len() implies (#[trigger] entries[j]).0
                        != name by {
                        assert(is_entry_line(lines@[j]@));
                        assert(!lists_name(lines@[j]@, name));
                    }
                }
            }
            if m@.contains_key(name) {
                let j = choose|j: int| 0 <= j < entries.len() && (#[trigger] entries[j]).0 == name;
                assert(is_entry_line(lines@[j]@));
                assert(lists_name(lines@[j]@, name));
            }
        },
        Err(m) => {
            let line = listing::read_dir_lines(all, Seq::empty())->Err_0;
            let j = choose|j: int|
                0 <= j < k && (#[trigger] all[j]) == line && forall|h: int|
                    0 <= h < j ==> is_entry_line(#[trigger] all[h]);
            assert(!is_entry_line(lines@[j]@));
            assert forall|h: int| 0 <= h < j implies is_entry_line(#[trigger] lines@[h]@) by {
                assert(is_entry_line(all[h]));
            }
        },
    }
}

/// A listing is read in the same way where it is no reply; the first line that is no entry
/// is handed back as it is.
pub proof fn law_listing_is_read_as_a_reply_is(
    body: &str,
    r: Result<NameMap<FileAttributes>, String>,
    q: Result<NameMap<FileAttributes>, String>,
)
    requires
        call_ensures(read_dir_body, (body,), r),
        call_ensures(parse_read_dir, (body,), q),
    ensures
        r is Ok <==> q is Ok,
        r matches Ok(m) ==> m@ == q->Ok_0@,
        r matches Err(m) ==> m@ == "Failed to parse read-dir line: "@ + q->Err_0@,
{
}

/// Whether the fourth word of a line is a name.
pub open spec fn lists_name(line: Seq<char>, name: Seq<char>) -> bool {
    text::words(line).len() >= 4 && text::words(line)[3] == name
}

/// A listing of the device has each entry's size and kind under its name. Of several with a
/// name the last counts, and there is no other name.
pub proof fn law_device_entries_are_listed(
    entries: &Vec<DirEntry>,
    r: NameMap<FileAttributes>,
    i: int,
    name: Seq<char>,
)
    requires
        call_ensures(device_entries, (entries,), r),
    ensures
        0 <= i < entries@.len() && (forall|j: int|
            i < j < entries@.len() ==> (#[trigger] entries@[j]).name@ != entries@[i].name@)
            ==> r@.contains_key(entries@[i].name@) && r@[entries@[i].name@].size == entries@[i].size
            && r@[entries@[i].name@].is_dir == entries@[i].is_dir,
        r@.contains_key(name) ==> exists|j: int|
            0 <= j < entries@.len() && (#[trigger] entries@[j]).name@ == name,
{
    let views = listing::entry_views(entries@);
    if 0 <= i < entries@.len() && (forall|j: int|
        i < j < entries@.len() ==> (#[trigger] entries@[j]).name@ != entries@[i].name@) {
        assert forall|j: int| i < j < views.len() implies (#[trigger] views[j]).0
            != entries@[i].name@ by {
            assert(entries@[j].name@ != entries@[i].name@);
        }
        text_laws::law_last_entry_counts(views, entries@[i].name@, i);
        assert(views[i].0 == entries@[i].name@);
    }
    text_laws::law_last_entry_counts(views, name, i);
    if r@.contains_key(name) {
        let j = choose|j: int| 0 <= j < views.len() && (#[trigger] views[j]).0 == name;
        assert(entries@[j].name@ == name);
    }
}

/// An entry of a host directory is bound under its name with its size and kind, and every
/// other name is as it was; one without a name that is text is an error.
pub proof fn law_host_entry_is_bound(e: NonUtf8Name, message: &'static str)
    requires
        call_ensures(NonUtf8Name::message, (&e,), message),
    ensures
        message@ == "non UTF-8 file name"@,
        forall|
            entries: &mut NameMap<FileAttributes>,
            name: Option<String>,
            size: u64,
            is_dir: bool,
            r: Result<(), NonUtf8Name>,
        |
            #[trigger] call_ensures(add_host_entry, (entries, name, size, is_dir), r) ==> {
                &&& r is Ok <==> name is Some
                &&& name matches Some(n) ==> final(entries)@ == (*entries)@.insert(
                    n@,
                    FileAttributes { size, is_dir },
                )
                &&& name is None ==> *final(entries) == *entries
            },
{
}

/// A command is sent as it is, ended by a line feed.
pub proof fn law_command_is_one_line(command: &str, r: String)
    requires
        call_ensures(command_line, (command,), r),
    ensures
        r@ == command@.push('\n'),
{
    reveal_strlit("\n");
    assert(r@ =~= command@.push('\n'));
}

/// The line that adds a network holds its name in quotes, and then the whole password in
/// quotes, however long it is, unless there is none or it is empty.
pub proof fn law_network_is_added_with_its_password(
    ssid: &str,
    password: &str,
    r: String,
    open: String,
)
    requires
        call_ensures(wifi_line, (ssid, Some(password)), r),
        call_ensures(wifi_line, (ssid, None::<&str>), open),
    ensures
        password@.len() > 0 ==> r@ == "add_wifi_network '"@ + ssid@ + "' '"@ + password@ + "'\n"@,
        password@.len() == 0 ==> r@ == "add_wifi_network '"@ + ssid@ + "'\n"@,
        open@ == "add_wifi_network '"@ + ssid@ + "'\n"@,
{
}

/// Whether a name is there and has the five letters `Boppo` in it.
pub open spec fn says_boppo(name: Option<String>) -> bool {
    name is Some && exists|k: int|
        0 <= k && k + 5 <= name->0@.len() && #[trigger] name->0@[k] == 'B' && name->0@[k + 1] == 'o'
            && name->0@[k + 2] == 'p' && name->0@[k + 3] == 'p' && name->0@[k + 4] == 'o'
}

/// Whether a port is that of a Boppo device.
pub open spec fn is_boppo(port: SerialPortEntry) -> bool {
    port.usb is Some && port.usb->0.vid == 0x303A && (says_boppo(port.usb->0.manufacturer)
        || says_boppo(port.usb->0.product))
}

proof fn lemma_says_boppo(name: Option<String>)
    ensures
        says_boppo(name) <==> usb::names_boppo(name),
{
    reveal_strlit("Boppo");
    if says_boppo(name) {
        let n = name->0@;
        let k = choose|k: int|
            0 <= k && k + 5 <= n.len() && #[trigger] n[k] == 'B' && n[k + 1] == 'o' && n[k + 2] == 'p'
                && n[k + 3] == 'p' && n[k + 4] == 'o';
        assert(n.subrange(k, k + 5) =~= "Boppo"@);
        assert(text::has_substring(n, "Boppo"@));
    }
    if usb::names_boppo(name) {
        let n = name->0@;
        let k = choose|k: int|
            0 <= k <= n.len() - "Boppo"@.len() && #[trigger] n.subrange(k, k + "Boppo"@.len())
                == "Boppo"@;
        let part = n.subrange(k, k + 5);
        assert(part[0] == n[k] && part[1] == n[k + 1] && part[2] == n[k + 2] && part[3] == n[k + 3]
            && part[4] == n[k + 4]);
    }
}

/// The port that is found is the first one of a Boppo device, and none is found only where
/// there is none.
pub proof fn law_first_boppo_port_is_found(ports: &Vec<SerialPortEntry>, r: Option<String>)
    requires
        call_ensures(find_boppo_port, (ports,), r),
    ensures
        r is None <==> forall|i: int| 0 <= i < ports@.len() ==> !is_boppo(#[trigger] ports@[i]),
        r matches Some(name) ==> exists|i: int|
            0 <= i < ports@.len() && is_boppo(#[trigger] ports@[i]) && ports@[i].port_name@ == name@
                && forall|j: int| 0 <= j < i ==> !is_boppo(#[trigger] ports@[j]),
{
    assert forall|i: int| 0 <= i < ports@.len() implies is_boppo(#[trigger] ports@[i])
        == usb::is_boppo_port(ports@[i]) by {
        if let Some(u) = ports@[i].usb {
            lemma_says_boppo(u.manufacturer);
            lemma_says_boppo(u.product);
        }
    }
    if r is Some {
        let i = choose|i: int|
            0 <= i < ports@.len() && usb::is_boppo_port(#[trigger] ports@[i])
                && ports@[i].port_name == r->0 && forall|j: int|
                0 <= j < i ==> !usb::is_boppo_port(#[trigger] ports@[j]);
        assert(is_boppo(ports@[i]));
    }
}

/// Nothing came in of a response that is just begun, and nothing was found by browsing that
/// is just begun.
pub proof fn law_beginnings_are_empty(response: Response, browse: Browse)
    requires
        call_ensures(Response::new, (), response),
        call_ensures(Browse::new, (), browse),
    ensures
        response.received@.len() == 0,
        browse.devices@.len() == 0,
{
}

/// The text of a response whose bytes are those of a text is that text, whatever it is.
pub proof fn law_response_text_is_what_was_sent(response: &Response, r: String, sent: Seq<char>)
    requires
        call_ensures(Response::text, (response,), r),
        response.received@ == encode_utf8(sent),
    ensures
        r@ == sent,
{
    encode_utf8_valid_utf8(sent);
    encode_utf8_decode_utf8(sent);
}

/// What a read gave comes behind what came in before. The response goes on after some bytes,
/// is complete after none or a timeout, and broken after another error.
pub proof fn law_reads_are_taken_in()
    ensures
        forall|response: &mut Response, bytes: Vec<u8>, r: ReadProgress| #[trigger]
            call_ensures(Response::take, (response, PortRead::Bytes(bytes)), r) ==> final(
                response).received@ == (*response).received@ + bytes@ && (if bytes@.len() > 0 {
                r is More
            } else {
                r is Complete
            }),
        forall|response: &mut Response, r: ReadProgress| #[trigger]
            call_ensures(Response::take, (response, PortRead::TimedOut), r) ==> final(
                response).received@ == (*response).received@ && r is Complete,
        forall|response: &mut Response, r: ReadProgress| #[trigger]
            call_ensures(Response::take, (response, PortRead::Failed), r) ==> final(
                response).received@ == (*response).received@ && r is Broken,
{
}

/// The serial number stands between `boppo-` and `.local.` in a host name of that form; any
/// other host name stands for itself.
pub proof fn law_serial_stands_in_the_host_name(hostname: &str, r: String, serial: Seq<char>)
    requires
        call_ensures(serial_of_hostname, (hostname,), r),
    ensures
        hostname@ == "boppo-"@ + serial + ".local."@ ==> r@ == serial,
        (forall|s: Seq<char>| hostname@ != #[trigger] ("boppo-"@ + s + ".local."@)) ==> r@
            == hostname@,
{
    if hostname@ == "boppo-"@ + serial + ".local."@ {
        device::law_hostname_gives_serial(serial);
    }
    if forall|s: Seq<char>| hostname@ != #[trigger] ("boppo-"@ + s + ".local."@) {
        if let Some(rest) = text::after_prefix(hostname@, "boppo-"@) {
            if let Some(s) = text::before_suffix(rest, ".local."@) {
                assert(hostname@ =~= "boppo-"@ + s + ".local."@);
            }
        }
    }
}

/// Whether devices are known as they were, in order, up to a position.
pub open spec fn are_kept(
    before: Seq<DiscoveredDevice>,
    after: Seq<DiscoveredDevice>,
    n: nat,
) -> bool {
    &&& before.len() == n
    &&& n <= after.len()
    &&& forall|i: int|
        0 <= i < n ==> (#[trigger] after[i]).serial@ == before[i].serial@ && after[i].device_name@
            == before[i].device_name@
}

proof fn lemma_are_kept(before: Seq<DiscoveredDevice>, after: Seq<DiscoveredDevice>)
    requires
        device::device_views(before).is_prefix_of(device::device_views(after)),
    ensures
        are_kept(before, after, before.len()),
{
    let a = device::device_views(before);
    let b = device::device_views(after);
    assert forall|i: int| 0 <= i < before.len() implies (#[trigger] after[i]).serial@
        == before[i].serial@ && after[i].device_name@ == before[i].device_name@ by {
        assert(b.subrange(0, a.len() as int)[i] == a[i]);
        assert(a[i] == before[i]@);
        assert(b[i] == after[i]@);
    }
}

/// A resolved service is one device more, behind those that were found before, with the
/// serial number of its host name and the name that it announces, or `unknown`. Nothing else
/// adds a device. Browsing goes on until its time is over or nothing more can come.
pub proof fn law_resolved_service_is_found()
    ensures
        forall|browse: &mut Browse, hostname: String, device_name: Option<String>, r: bool| #[trigger]
            call_ensures(
                Browse::take,
                (browse, BrowseEvent::Resolved { hostname, device_name }),
                r,
            ) ==> {
                &&& r
                &&& final(browse).devices@.len() == (*browse).devices@.len() + 1
                &&& are_kept(
                    (*browse).devices@,
                    final(browse).devices@,
                    (*browse).devices@.len(),
                )
                &&& final(browse).devices@.last().serial@ == device::serial_in(hostname@)
                &&& final(browse).devices@.last().device_name@ == if device_name is Some {
                    device_name->0@
                } else {
                    "unknown"@
                }
            },
        forall|browse: &mut Browse, event: BrowseEvent, r: bool| #[trigger]
            call_ensures(Browse::take, (browse, event), r) && !(event is Resolved) ==> {
                &&& r <==> event is Other
                &&& final(browse).devices@.len() == (*browse).devices@.len()
                &&& are_kept(
                    (*browse).devices@,
                    final(browse).devices@,
                    (*browse).devices@.len(),
                )
            },
{
    assert forall|browse: &mut Browse, event: BrowseEvent, r: bool| #[trigger]
        call_ensures(Browse::take, (browse, event), r) implies {
        let before = (*browse).devices@;
        let after = final(browse).devices@;
        &&& are_kept(before, after, before.len())
        &&& after.len() == before.len() + (if event is Resolved {
            1int
        } else {
            0
        })
        &&& event is Resolved ==> after.last()@ == device::device_views(after).last()
    } by {
        let before = (*browse).devices@;
        let after = final(browse).devices@;
        assert(device::device_views(after).len() == after.len());
        assert(device::device_views(before).is_prefix_of(device::device_views(after))) by {
            assert(device::device_views(after).subrange(0, before.len() as int)
                =~= device::device_views(before));
        }
        lemma_are_kept(before, after);
    }
}

/// The request to pair goes to the device with the serial number, and carries the time.
pub proof fn law_pairing_is_asked_of_the_device(serial: &str, seconds: u64, r: PairingRequest)
    requires
        call_ensures(pairing_request, (serial, seconds), r),
    ensures
        r.url@ == "https://boppo-"@ + serial@ + ".local"@,
        r.request_id == seconds,
{
}

} // verus!
