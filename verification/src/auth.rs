//! The pure side of the sign-in flow: where the token file lives, and
//! what each polling answer of the device flow means. The network calls
//! and the file reads stay with the caller.
use vstd::prelude::*;

use crate::text::append_chars;
use crate::text::append_str;
use crate::text::chars_of_str;
use crate::text::chars_to_string;
use crate::text::join_path_spec;
use crate::text::str_eq_chars;

verus! {

/// What starting the device flow hands the interface: the code the user
/// enters, where to enter it, and how to poll.
pub struct DeviceFlowStart {
    pub user_code: String,
    pub verification_uri: String,
    pub device_code: String,
    pub expires_in: u64,
    pub interval: u64,
}

/// Whether a user is signed in, and as whom.
pub struct AuthStatus {
    pub authenticated: bool,
    pub username: Option<String>,
}

/// The path of the stored token file under the application data
/// directory.
pub fn token_path(app_data_dir: &str) -> (r: String)
    ensures
        r@ == join_path_spec(app_data_dir@, "github_token"@),
{
    proof {
        reveal_strlit("github_token");
        reveal_strlit("/");
    }
    let base = chars_of_str(app_data_dir);
    let mut out: Vec<char> = Vec::new();
    if base.len() == 0 {
        append_str(&mut out, "github_token");
    } else if base[base.len() - 1] == '/' {
        append_chars(&mut out, &base);
        append_str(&mut out, "github_token");
    } else {
        append_chars(&mut out, &base);
        append_str(&mut out, "/");
        proof {
            assert("/"@ =~= seq!['/']);
        }
        append_str(&mut out, "github_token");
    }
    proof {
        assert(out@ =~= join_path_spec(app_data_dir@, "github_token"@));
    }
    chars_to_string(&out)
}

/// What one polling answer of the device flow decides: a token is kept,
/// a pending or slow-down answer means keep polling, an expired code or
/// a denial ends the flow with the message the interface shows, and any
/// other error is reported verbatim.
pub fn auth_poll_decision(access_token: Option<String>, error: Option<String>) -> (r: Result<
    Option<String>,
    String,
>)
    ensures
        match access_token {
            Option::Some(t) => r == Result::<Option<String>, String>::Ok(Option::Some(t)),
            Option::None => match error {
                Option::Some(e) => {
                    if e@ == "authorization_pending"@ || e@ == "slow_down"@ {
                        r == Result::<Option<String>, String>::Ok(Option::None)
                    } else if e@ == "expired_token"@ {
                        r matches Result::Err(m) && m@
                            == "Device code expired. Please restart authentication."@
                    } else if e@ == "access_denied"@ {
                        r matches Result::Err(m) && m@ == "Access was denied by the user."@
                    } else {
                        r matches Result::Err(m) && m@ == "Auth error: "@ + e@
                    }
                },
                Option::None => r == Result::<Option<String>, String>::Ok(Option::None),
            },
        },
{
    match access_token {
        Option::Some(t) => Ok(Some(t)),
        Option::None => match error {
            Option::Some(e) => {
                let ev = chars_of_str(e.as_str());
                if str_eq_chars("authorization_pending", &ev) || str_eq_chars("slow_down", &ev) {
                    Ok(None)
                } else if str_eq_chars("expired_token", &ev) {
                    let mut m: Vec<char> = Vec::new();
                    append_str(&mut m, "Device code expired. Please restart authentication.");
                    Err(chars_to_string(&m))
                } else if str_eq_chars("access_denied", &ev) {
                    let mut m: Vec<char> = Vec::new();
                    append_str(&mut m, "Access was denied by the user.");
                    Err(chars_to_string(&m))
                } else {
                    let mut m: Vec<char> = Vec::new();
                    append_str(&mut m, "Auth error: ");
                    append_chars(&mut m, &ev);
                    Err(chars_to_string(&m))
                }
            },
            Option::None => Ok(None),
        },
    }
}

} // verus!
