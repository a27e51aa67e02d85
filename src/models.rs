//! The alert record and the message handed to the chat side.

use vstd::prelude::*;
use crate::error::CommandError;
use crate::text::{hex_of, sanitize, sanitized, to_hex};

verus! {

/// One registered alert.
///
/// `ordinal` is the per-user position (1-based) that users type to refer to
/// their alerts; `alert_id` is the stable, content-derived identifier.
#[derive(Debug, Clone)]
pub struct Alert {
    pub alert_id: String,
    pub url: String,
    pub matching_text: String,
    pub invert: bool,
    pub user_id: i64,
    pub ordinal: u64,
}

/// The mathematical value of an [`Alert`].
pub struct AlertView {
    pub alert_id: Seq<char>,
    pub url: Seq<char>,
    pub matching_text: Seq<char>,
    pub invert: bool,
    pub user_id: i64,
    pub ordinal: u64,
}

impl View for Alert {
    type V = AlertView;

    open spec fn view(&self) -> AlertView {
        AlertView {
            alert_id: self.alert_id@,
            url: self.url@,
            matching_text: self.matching_text@,
            invert: self.invert,
            user_id: self.user_id,
            ordinal: self.ordinal,
        }
    }
}

/// The views of a sequence of alerts.
pub open spec fn views(s: Seq<Alert>) -> Seq<AlertView> {
    s.map_values(|a: Alert| a@)
}

impl Alert {
    /// A field-by-field copy.
    pub fn copy(&self) -> (r: Alert)
        ensures
            r == *self,
    {
        Alert {
            alert_id: self.alert_id.clone(),
            url: self.url.clone(),
            matching_text: self.matching_text.clone(),
            invert: self.invert,
            user_id: self.user_id,
            ordinal: self.ordinal,
        }
    }
}

/// Names the digest of std's `DefaultHasher` over an alert's fields.
pub uninterp spec fn fingerprint_of(
    url: Seq<char>,
    matching_text: Seq<char>,
    invert: i64,
    user_id: i64,
) -> u64;

/// Relies on `std::hash::BuildHasher::hash_one` with
/// `BuildHasherDefault<DefaultHasher>`: each hasher is made with
/// `DefaultHasher::new` (fixed keys, no per-process seed) and fed the four
/// fields in order, so the digest depends on those fields alone.
#[verifier::external_body]
fn fingerprint(url: &str, matching_text: &str, invert: i64, user_id: i64) -> (r: u64)
    ensures
        r == fingerprint_of(url@, matching_text@, invert, user_id),
{
    let state = std::hash::BuildHasherDefault::<std::collections::hash_map::DefaultHasher>::default();
    std::hash::BuildHasher::hash_one(&state, (url, matching_text, invert, user_id))
}

/// The stored form of the invert flag: 1 for inverted, 0 otherwise.
pub open spec fn invert_flag(invert: bool) -> i64 {
    if invert {
        1
    } else {
        0
    }
}

/// The identifier of an alert: its fields' fingerprint in lower-case hex.
pub open spec fn alert_id_of(
    url: Seq<char>,
    matching_text: Seq<char>,
    invert: bool,
    user_id: i64,
) -> Seq<char> {
    hex_of(fingerprint_of(url, matching_text, invert_flag(invert), user_id) as nat)
}

/// Computes the identifier of an alert from its content.
pub fn alert_id(url: &str, matching_text: &str, invert: bool, user_id: i64) -> (r: String)
    ensures
        r@ == alert_id_of(url@, matching_text@, invert, user_id),
{
    let flag: i64 = if invert {
        1
    } else {
        0
    };
    to_hex(fingerprint(url, matching_text, flag, user_id))
}

/// The identifier is a function of the four fields: equal fields give equal
/// identifiers, in any process.
pub proof fn alert_id_is_deterministic(
    url1: Seq<char>,
    text1: Seq<char>,
    invert1: bool,
    user1: i64,
    url2: Seq<char>,
    text2: Seq<char>,
    invert2: bool,
    user2: i64,
)
    requires
        url1 == url2,
        text1 == text2,
        invert1 == invert2,
        user1 == user2,
    ensures
        alert_id_of(url1, text1, invert1, user1) == alert_id_of(url2, text2, invert2, user2),
{
}

impl Alert {
    /// An alert with its identifier derived from its content.
    pub fn new(url: &str, matching_text: &str, invert: bool, user_id: i64, ordinal: u64) -> (r:
        Alert)
        ensures
            r@ == (AlertView {
                alert_id: alert_id_of(url@, matching_text@, invert, user_id),
                url: url@,
                matching_text: matching_text@,
                invert,
                user_id,
                ordinal,
            }),
    {
        Alert {
            alert_id: alert_id(url, matching_text, invert, user_id),
            url: String::from_str(url),
            matching_text: String::from_str(matching_text),
            invert,
            user_id,
            ordinal,
        }
    }

    /// Builds an alert from the arguments of an `add` command:
    /// `<url> <matching_text> [-n]`.
    ///
    /// The URL must parse as an absolute URL and is stored in its normal
    /// form; the matching text is sanitized; a `-n` anywhere after it makes
    /// the alert inverted. The chat platform's user id is reinterpreted as a
    /// signed value.
    pub fn from_args(args: &Vec<String>, user_id: u64, ordinal: u64) -> (r: Result<
        Alert,
        CommandError,
    >)
        ensures
            match r {
                Ok(a) => from_args_result(args@.map_values(|x: String| x@), user_id, ordinal) == Ok::<
                    AlertView,
                    CommandError,
                >(a@),
                Err(e) => from_args_result(args@.map_values(|x: String| x@), user_id, ordinal)
                    == Err::<AlertView, CommandError>(e),
            },
    {
        if args.len() == 0 {
            return Err(CommandError::MissingUrl);
        }
        let url = match parse_url(args[0].as_str()) {
            Some(u) => u,
            None => {
                return Err(CommandError::InvalidUrl);
            },
        };
        if args.len() < 2 {
            return Err(CommandError::MissingMatchingText);
        }
        let text = sanitize(args[1].as_str());
        let invert = has_invert_flag(args);
        let uid = user_id_from_platform(user_id);
        Ok(Alert::new(url.as_str(), text.as_str(), invert, uid, ordinal))
    }
}

/// What `Alert::from_args` gives for the arguments `args`.
pub open spec fn from_args_result(args: Seq<Seq<char>>, user_id: u64, ordinal: u64) -> Result<
    AlertView,
    CommandError,
> {
    if args.len() == 0 {
        Err(CommandError::MissingUrl)
    } else if parsed_url(args[0]) is None {
        Err(CommandError::InvalidUrl)
    } else if args.len() < 2 {
        Err(CommandError::MissingMatchingText)
    } else {
        let url = parsed_url(args[0])->Some_0;
        let text = sanitized(args[1]);
        let invert = invert_requested(args);
        let uid = signed_user_id(user_id);
        Ok(
            AlertView {
                alert_id: alert_id_of(url, text, invert, uid),
                url,
                matching_text: text,
                invert,
                user_id: uid,
                ordinal,
            },
        )
    }
}

/// Names the normal form that `reqwest::Url` gives an absolute URL, or
/// `None` when the text does not parse as one.
pub uninterp spec fn parsed_url(s: Seq<char>) -> Option<Seq<char>>;

/// Relies on `reqwest::Url::parse` (the `url` crate's parser, which accepts
/// absolute URLs only) and `Url::as_str`, the URL's serialization.
#[verifier::external_body]
fn parse_url(s: &str) -> (r: Option<String>)
    ensures
        match r {
            Some(u) => parsed_url(s@) == Some(u@),
            None => parsed_url(s@) is None,
        },
{
    match reqwest::Url::parse(s) {
        Ok(u) => Some(u.as_str().to_owned()),
        Err(_) => None,
    }
}

/// Whether some argument after the first two is `-n`.
pub open spec fn invert_requested(args: Seq<Seq<char>>) -> bool {
    exists|j: int| 2 <= j < args.len() && #[trigger] args[j] == "-n"@
}

fn has_invert_flag(args: &Vec<String>) -> (r: bool)
    ensures
        r == invert_requested(args@.map_values(|a: String| a@)),
{
    let ghost views = args@.map_values(|a: String| a@);
    let flag = String::from_str("-n");
    let mut j: usize = 2;
    while j < args.len()
        invariant
            2 <= j,
            flag@ == "-n"@,
            views == args@.map_values(|a: String| a@),
            forall|k: int| 2 <= k < j && k < args@.len() ==> #[trigger] views[k] != "-n"@,
        decreases args@.len() - j,
    {
        if args[j] == flag {
            assert(views[j as int] == "-n"@);
            return true;
        }
        j = j + 1;
    }
    false
}

/// The signed form of a chat platform user id: the same 64 bits.
pub open spec fn signed_user_id(id: u64) -> i64 {
    (if id <= i64::MAX {
        id as int
    } else {
        id - 0x1_0000_0000_0000_0000
    }) as i64
}

/// Reinterprets the chat platform's unsigned user id as the stored signed
/// value, keeping every bit.
pub fn user_id_from_platform(id: u64) -> (r: i64)
    ensures
        r == signed_user_id(id),
{
    if id <= i64::MAX as u64 {
        id as i64
    } else {
        let low = id - 0x8000_0000_0000_0000;
        assert(low <= i64::MAX);
        (low as i64) + i64::MIN
    }
}

/// The chat platform's unsigned user id for a stored signed value.
pub fn platform_user_id(id: i64) -> (r: u64)
    ensures
        signed_user_id(r) == id,
        r == if id >= 0 {
            id as int
        } else {
            id + 0x1_0000_0000_0000_0000
        },
{
    if id >= 0 {
        id as u64
    } else {
        let shifted = id - i64::MIN;
        (shifted as u64) + 0x8000_0000_0000_0000
    }
}

/// A notification for one user, carried from the poller to the chat side.
#[derive(Debug, Clone)]
pub struct ResponseMessage {
    pub user_id: i64,
    pub message: String,
}

} // verus!
