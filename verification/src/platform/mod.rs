//! Capture sources and pointers of the desktop.

use crate::platform::interface::{FrameProvider, PointerProvider};
use crate::platform::linux::wayland::check_token_path;
use vstd::prelude::*;

pub mod interface;
pub mod linux;
pub mod macos;

verus! {

/// The systems that have desktop providers, and the others.
#[derive(Clone, Copy, Debug, PartialEq, Eq, Structural)]
pub enum Desktop {
    Linux,
    MacOs,
    Other,
}

/// A source of frames and a source of pointer observations that belong together.
#[derive(Debug)]
pub struct DesktopProviders<F: FrameProvider, P: PointerProvider> {
    pub frames: F,
    pub pointer: P,
}

/// What the first sources are started with: on Linux the path of the file that remembers the
/// screen cast, which must not be empty. Other systems than Linux and macOS have no sources.
pub open spec fn provider_error(desktop: Desktop, screencast_token: Seq<char>) -> Option<
    Seq<char>,
> {
    if desktop == Desktop::Other {
        Some("No desktop providers are implemented for this platform"@)
    } else if desktop == Desktop::Linux && screencast_token.len() == 0 {
        Some("token_path must not be empty"@)
    } else {
        None
    }
}

/// The sources of a desktop, where `start` starts those of the system.
pub fn create_desktop_providers<
    F: FrameProvider,
    P: PointerProvider,
    S: FnOnce(String) -> Result<(F, P), String>,
>(desktop: Desktop, screencast_token: String, start: S) -> (r: Result<
    DesktopProviders<F, P>,
    String,
>)
    requires
        provider_error(desktop, screencast_token@) is None ==> call_requires(
            start,
            (screencast_token,),
        ),
    ensures
        match provider_error(desktop, screencast_token@) {
            Some(message) => r is Err && r->Err_0@ == message,
            None => match r {
                Ok(providers) => call_ensures(
                    start,
                    (screencast_token,),
                    Ok((providers.frames, providers.pointer)),
                ),
                Err(message) => call_ensures(start, (screencast_token,), Err(message)),
            },
        },
{
    match desktop {
        Desktop::Other => {
            return Err("No desktop providers are implemented for this platform".to_owned());
        },
        Desktop::Linux => {
            match check_token_path(screencast_token.as_str()) {
                Ok(_) => {},
                Err(message) => return Err(message),
            }
        },
        Desktop::MacOs => {},
    }
    match start(screencast_token) {
        Ok((frames, pointer)) => Ok(DesktopProviders { frames, pointer }),
        Err(message) => Err(message),
    }
}

/// Sources can be started on macOS, and on Linux with a path.
pub proof fn law_linux_needs_a_path(desktop: Desktop, screencast_token: Seq<char>)
    ensures
        provider_error(desktop, screencast_token) is None <==> desktop == Desktop::MacOs || (desktop
            == Desktop::Linux && screencast_token.len() > 0),
{
}

} // verus!
