//! The notices that the collector gives its operator.
use vstd::prelude::*;

verus! {

/// A notice for the operator, with the details it reports.
#[derive(Debug)]
pub enum Notify {
    /// The database was changed; the path of the new one and its volume.
    ChangedDB(String),
    /// The new database was written for the first time; when.
    FirstWrite(String),
    /// The volume runs low; what remains and how large a frame was.
    LowStorage(String),
    /// The settings were changed; the new ones.
    ChangedConfig(String),
    /// New settings did not parse; what did not.
    InvalidConfig(String),
}

/// The words that introduce the details of a notice.
pub open spec fn notice_lead(n: Notify) -> Seq<char> {
    match n {
        Notify::ChangedDB(_) => "the DB has been changed to: "@,
        Notify::FirstWrite(_) => "the new DB has been written to at: "@,
        Notify::LowStorage(_) => "the storage is low on this volume: "@,
        Notify::ChangedConfig(_) => "the config has successfully been changed to: "@,
        Notify::InvalidConfig(_) => "reverting to previous config, new config failed to parse: "@,
    }
}

/// The details that a notice reports.
pub open spec fn notice_details(n: Notify) -> Seq<char> {
    match n {
        Notify::ChangedDB(info) => info@,
        Notify::FirstWrite(info) => info@,
        Notify::LowStorage(info) => info@,
        Notify::ChangedConfig(info) => info@,
        Notify::InvalidConfig(info) => info@,
    }
}

/// The line that tells the operator of `notification`.
pub fn notification_text(notification: &Notify) -> (r: String)
    ensures
        r@ == notice_lead(*notification) + notice_details(*notification),
{
    let (lead, info) = match notification {
        Notify::ChangedDB(info) => ("the DB has been changed to: ", info),
        Notify::FirstWrite(info) => ("the new DB has been written to at: ", info),
        Notify::LowStorage(info) => ("the storage is low on this volume: ", info),
        Notify::ChangedConfig(info) => ("the config has successfully been changed to: ", info),
        Notify::InvalidConfig(info) => (
            "reverting to previous config, new config failed to parse: ",
            info,
        ),
    };
    let mut r = String::from_str(lead);
    r.append(info.as_str());
    r
}

} // verus!
