//! The device's file API over HTTP: the addresses of its requests, and what the
//! replies mean.

use vstd::prelude::*;

use crate::listing;
use crate::listing::parse_read_dir;
use crate::name_map::NameMap;
use crate::sync::FileAttributes;
use crate::text;
use crate::text::{decimal_of, join2, join3};

verus! {

/// The address that lists a device directory.
pub fn read_dir_url(device_url: &str, path: &str) -> (r: String)
    ensures
        r@ == device_url@ + "/files/read-dir?path="@ + path@,
{
    join3(device_url, "/files/read-dir?path=", path)
}

/// The address that uploads a device file.
pub fn upload_url(device_url: &str, path: &str) -> (r: String)
    ensures
        r@ == device_url@ + "/files/upload?path="@ + path@,
{
    join3(device_url, "/files/upload?path=", path)
}

/// The address that removes a device file.
pub fn remove_file_url(device_url: &str, path: &str) -> (r: String)
    ensures
        r@ == device_url@ + "/files/remove-file?path="@ + path@,
{
    join3(device_url, "/files/remove-file?path=", path)
}

/// What the status of a reply to a listing request means.
#[derive(Debug)]
pub enum ReadDirReply {
    /// There is no such directory: the listing holds nothing.
    Absent(NameMap<FileAttributes>),
    /// The body holds the listing.
    Listing,
    /// The request failed, with what to tell the user.
    Failed(String),
}

/// The meaning of the status of a reply to a listing request at `url`.
pub fn read_dir_reply(status: u16, url: &str) -> (r: ReadDirReply)
    ensures
        r is Absent <==> status == 404,
        r matches ReadDirReply::Absent(m) ==> m.pairs() == Seq::<
            (Seq<char>, FileAttributes),
        >::empty(),
        r is Listing <==> status == 200,
        r matches ReadDirReply::Failed(message) ==> message@ == "read-dir returned status code of "@
            + text::decimal(status as nat) + ": "@ + url@,
{
    if status == 404 {
        ReadDirReply::Absent(NameMap::new())
    } else if status == 200 {
        ReadDirReply::Listing
    } else {
        let code = decimal_of(status as u64);
        let mut message = join3("read-dir returned status code of ", code.as_str(), ": ");
        message.append(url);
        ReadDirReply::Failed(message)
    }
}

/// The entries that the body of a reply lists, or what to tell the user of a line
/// that is none.
pub fn read_dir_body(body: &str) -> (r: Result<NameMap<FileAttributes>, String>)
    ensures
        match listing::read_dir_lines(text::lines(body@), Seq::empty()) {
            Ok(pairs) => r matches Ok(m) && m.pairs() == pairs,
            Err(line) => r matches Err(message) && message@ == "Failed to parse read-dir line: "@
                + line,
        },
{
    match parse_read_dir(body) {
        Ok(m) => Ok(m),
        Err(line) => Err(join2("Failed to parse read-dir line: ", line.as_str())),
    }
}

/// Whether the status of a reply says that a file was removed, or what to tell the
/// user if not.
pub fn remove_file_reply(status: u16) -> (r: Result<(), String>)
    ensures
        r is Ok <==> status == 200,
        r matches Err(message) ==> message@ == "remove-file returned status code of "@
            + text::decimal(status as nat),
{
    if status == 200 {
        Ok(())
    } else {
        let code = decimal_of(status as u64);
        Err(join2("remove-file returned status code of ", code.as_str()))
    }
}

} // verus!
