//! The errors of the library and the words each is shown with.
use vstd::prelude::*;

verus! {

/// What a locked device is reported as.
pub const DEVICE_LOCKED: &'static str = "the device was locked when iOS needed to access protected data — unlock it and keep it unlocked and awake for the whole backup";

/// What a host-side I/O failure is reported as.
pub const HOST_IO_ERROR: &'static str = "the Mac had a host-side I/O error while writing the backup (device error 104) — this is usually caused by low system memory or a disk/USB hiccup on this computer, not a problem with the device; Cradle will retry automatically, but free up memory if it keeps happening";

/// What a silent device is reported as.
pub const STALLED: &'static str = "the device stopped responding mid-backup with no error and no further progress — Cradle will retry automatically, but check the cable/USB connection and that the device is unlocked and awake if it keeps happening";

/// What a rejected backup password is reported as.
pub const WRONG_BACKUP_PASSWORD: &'static str = "the backup password Cradle sent was rejected — the device could not unlock this backup with it. Double-check the password (or use the override field if this backup used a different one than what's stored) and try again.";

/// What a device that has not enabled its backup service is reported as.
pub const DEVICE_NOT_READY: &'static str = "the device isn't ready for a backup or restore yet — this happens when it hasn't gotten far enough through initial setup (or activation) for iOS to enable that service. Get it to the Wi-Fi / Apple ID / \"Apps & Data\" step in Setup Assistant (or finish setup entirely) and try again.";

/// Everything that can go wrong: a tool failed, the local filesystem failed,
/// the catalog refused, or one of a handful of conditions of Cradle's own.
#[derive(Debug)]
pub enum CradleError {
    /// A filesystem failure, with the system's words for it.
    Io(String),
    /// The catalog refused or failed, with its words for it.
    Catalog(String),
    /// An external tool that is neither on `PATH` nor in a usual prefix.
    ToolNotFound(&'static str),
    /// An external tool that reported an error in its own words.
    ToolFailed(String),
    /// Device error 208: protected data was needed while the device was locked.
    DeviceLocked,
    /// Device error 104: the Mac failed to read or write a backup file.
    HostIoError,
    /// The device went silent without an error.
    Stalled,
    /// Device error 207: the backup's keybag does not open with the password.
    WrongBackupPassword,
    /// The device has not enabled its backup service yet.
    DeviceNotReadyForBackupService,
    /// Anything else, in words.
    Other(String),
}

/// A [`CradleError`] with its texts as sequences of characters.
pub enum ErrorView {
    Io(Seq<char>),
    Catalog(Seq<char>),
    ToolNotFound(Seq<char>),
    ToolFailed(Seq<char>),
    DeviceLocked,
    HostIoError,
    Stalled,
    WrongBackupPassword,
    DeviceNotReadyForBackupService,
    Other(Seq<char>),
}

impl View for CradleError {
    type V = ErrorView;

    open spec fn view(&self) -> ErrorView {
        match self {
            CradleError::Io(s) => ErrorView::Io(s@),
            CradleError::Catalog(s) => ErrorView::Catalog(s@),
            CradleError::ToolNotFound(s) => ErrorView::ToolNotFound(s@),
            CradleError::ToolFailed(s) => ErrorView::ToolFailed(s@),
            CradleError::DeviceLocked => ErrorView::DeviceLocked,
            CradleError::HostIoError => ErrorView::HostIoError,
            CradleError::Stalled => ErrorView::Stalled,
            CradleError::WrongBackupPassword => ErrorView::WrongBackupPassword,
            CradleError::DeviceNotReadyForBackupService => ErrorView::DeviceNotReadyForBackupService,
            CradleError::Other(s) => ErrorView::Other(s@),
        }
    }
}

impl ErrorView {
    /// The words the error is shown with.
    pub open spec fn text(self) -> Seq<char> {
        match self {
            ErrorView::Io(s) => "filesystem error: "@ + s,
            ErrorView::Catalog(s) => "catalog error: "@ + s,
            ErrorView::ToolNotFound(s) => "`"@ + s + "` not found on PATH or in the usual Homebrew prefixes"@,
            ErrorView::ToolFailed(s) => s,
            ErrorView::DeviceLocked => DEVICE_LOCKED@,
            ErrorView::HostIoError => HOST_IO_ERROR@,
            ErrorView::Stalled => STALLED@,
            ErrorView::WrongBackupPassword => WRONG_BACKUP_PASSWORD@,
            ErrorView::DeviceNotReadyForBackupService => DEVICE_NOT_READY@,
            ErrorView::Other(s) => s,
        }
    }
}

impl CradleError {
    /// The words this error is shown with.
    pub fn message(&self) -> (words: String)
        ensures
            words@ == self@.text(),
    {
        match self {
            CradleError::Io(s) => "filesystem error: ".to_owned().concat(s.as_str()),
            CradleError::Catalog(s) => "catalog error: ".to_owned().concat(s.as_str()),
            CradleError::ToolNotFound(s) => "`".to_owned().concat(s).concat(
                "` not found on PATH or in the usual Homebrew prefixes",
            ),
            CradleError::ToolFailed(s) => s.clone(),
            CradleError::DeviceLocked => DEVICE_LOCKED.to_owned(),
            CradleError::HostIoError => HOST_IO_ERROR.to_owned(),
            CradleError::Stalled => STALLED.to_owned(),
            CradleError::WrongBackupPassword => WRONG_BACKUP_PASSWORD.to_owned(),
            CradleError::DeviceNotReadyForBackupService => DEVICE_NOT_READY.to_owned(),
            CradleError::Other(s) => s.clone(),
        }
    }
}

/// A result with its value and its error taken by their views.
pub open spec fn viewed<T: View>(r: Result<T, CradleError>) -> Result<T::V, ErrorView> {
    match r {
        Ok(v) => Ok(v@),
        Err(e) => Err(e@),
    }
}

/// An error of a tool, or in words, is shown in those words; one of the filesystem or
/// the catalog says so in front of them, and one for a missing tool names it.
pub proof fn law_errors_are_shown_in_their_words(s: Seq<char>)
    ensures
        ErrorView::ToolFailed(s).text() == s,
        ErrorView::Other(s).text() == s,
        ErrorView::Io(s).text() == "filesystem error: "@ + s,
        ErrorView::Catalog(s).text() == "catalog error: "@ + s,
        ErrorView::ToolNotFound(s).text() == "`"@ + s
            + "` not found on PATH or in the usual Homebrew prefixes"@,
        ErrorView::DeviceLocked.text() == DEVICE_LOCKED@,
        ErrorView::HostIoError.text() == HOST_IO_ERROR@,
        ErrorView::Stalled.text() == STALLED@,
        ErrorView::WrongBackupPassword.text() == WRONG_BACKUP_PASSWORD@,
        ErrorView::DeviceNotReadyForBackupService.text() == DEVICE_NOT_READY@,
{
}

} // verus!
