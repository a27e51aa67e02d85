//! The user-facing commands, `add`, `list` and `delete`, over the alert
//! store. Each returns the reply text (or the error to report); the chat
//! side delivers it.

use vstd::prelude::*;
use crate::conduit::{AlertStore, holds_id, of_user, without};
use crate::error::CommandError;
use crate::matcher::pattern_compiles;
use crate::models::{Alert, AlertView, from_args_result, signed_user_id, user_id_from_platform, views};
use crate::text::{
    chunks, decimal_of, joined, lemma_chunks, parse_u64, parse_u64_of, split_chunks, texts,
    to_decimal,
};

verus! {

/// The prefix that starts every command.
pub const COMMAND_PREFIX: &'static str = "~";

/// The longest reply text sent as one message.
pub const MESSAGE_LIMIT: usize = 1900;

/// The widest the URL column of the alert table gets.
pub const URL_WIDTH: usize = 100;

/// The reply to a successful `add`.
pub open spec fn added_reply() -> Seq<char> {
    "Successfully added alert! Use ~list to see your current alerts"@
}

/// The reply to a successful `delete`.
pub open spec fn deleted_reply() -> Seq<char> {
    "Successfully deleted alert! Use ~list to see your current alerts"@
}

/// The reply to `list` for a user with no alerts.
pub open spec fn empty_list_reply() -> Seq<char> {
    "You currently have 0 alerts."@
}

/// `add <url> <matching_text> [-n]`: registers a new alert as the user's
/// next one.
///
/// Fails, the store unchanged, when the user's count is at the largest
/// ordinal, when the arguments are refused (see `Alert::from_args`), when
/// the matching text is not a valid pattern, or when the user already holds
/// the same alert.
pub fn add(store: &mut AlertStore, args: &Vec<String>, user_id: u64) -> (r: Result<
    String,
    CommandError,
>)
    requires
        old(store).wf(),
    ensures
        final(store).wf(),
        ({
            let uid = signed_user_id(user_id);
            let n = of_user(old(store)@, uid).len();
            let parsed = from_args_result(args@.map_values(|x: String| x@), user_id, (n + 1) as u64);
            &&& n >= u64::MAX ==> r == Err::<String, CommandError>(CommandError::TooManyAlerts)
            &&& n < u64::MAX && parsed is Err ==> r == Err::<String, CommandError>(parsed->Err_0)
            &&& n < u64::MAX && parsed is Ok && !pattern_compiles(parsed->Ok_0.matching_text) ==> (r is Err && r->Err_0 is InvalidPattern)
            &&& n < u64::MAX && parsed is Ok && pattern_compiles(parsed->Ok_0.matching_text) && holds_id(old(store)@, uid, parsed->Ok_0.alert_id)
                ==> r == Err::<String, CommandError>(CommandError::Store(crate::conduit::RepoError::Duplicate))
            &&& n < u64::MAX && parsed is Ok && pattern_compiles(parsed->Ok_0.matching_text) && !holds_id(old(store)@, uid, parsed->Ok_0.alert_id)
                ==> r is Ok && r->Ok_0@ == added_reply() && final(store)@ == old(store)@.push(parsed->Ok_0)
        }),
        r is Err ==> final(store)@ == old(store)@,
{
    let uid = user_id_from_platform(user_id);
    let n = crate::conduit::count(store, uid);
    if n == u64::MAX {
        return Err(CommandError::TooManyAlerts);
    }
    let alert = match Alert::from_args(args, user_id, n + 1) {
        Ok(a) => a,
        Err(e) => {
            return Err(e);
        },
    };
    match crate::matcher::compile(alert.matching_text.as_str()) {
        Ok(_) => {},
        Err(e) => {
            return Err(CommandError::InvalidPattern(e));
        },
    }
    match crate::conduit::insert(store, alert) {
        Ok(()) => Ok(String::from_str("Successfully added alert! Use ~list to see your current alerts")),
        Err(e) => Err(CommandError::Store(e)),
    }
}

/// The extra lines that carry the rest of a wrapped URL.
pub open spec fn continuation_lines(pieces: Seq<Seq<char>>) -> Seq<char>
    decreases pieces.len(),
{
    if pieces.len() == 0 {
        Seq::empty()
    } else {
        "   | "@ + pieces[0] + " |\n"@ + continuation_lines(pieces.skip(1))
    }
}

/// One alert's row of the table: `<ordinal>. | <url> | <matching text>`,
/// the URL wrapped onto further lines every 100 characters.
pub open spec fn table_row(a: AlertView) -> Seq<char> {
    let pieces = chunks(a.url, URL_WIDTH as nat);
    decimal_of(a.ordinal as nat) + ". | "@ + pieces[0] + " | "@ + a.matching_text + "\n"@
        + continuation_lines(pieces.skip(1))
}

/// The rows of the table, in order.
pub open spec fn table_rows(rows: Seq<AlertView>) -> Seq<char>
    decreases rows.len(),
{
    if rows.len() == 0 {
        Seq::empty()
    } else {
        table_row(rows[0]) + table_rows(rows.skip(1))
    }
}

/// The alert table: a header line, then one row per alert.
pub open spec fn alert_table(rows: Seq<AlertView>) -> Seq<char> {
    "# | URL | Matching Text\n"@ + table_rows(rows)
}

/// The messages that answer `list` for a user whose alerts are `rows`: the
/// table cut into pieces of at most 1900 characters, or a note that there
/// are none.
pub open spec fn list_replies(rows: Seq<AlertView>) -> Seq<Seq<char>> {
    if rows.len() == 0 {
        seq![empty_list_reply()]
    } else {
        chunks(alert_table(rows), MESSAGE_LIMIT as nat)
    }
}

/// Appends `alert`'s row of the table to `out`.
fn push_row(out: &mut String, alert: &Alert)
    ensures
        final(out)@ == old(out)@ + table_row(alert@),
{
    let pieces = split_chunks(alert.url.as_str(), URL_WIDTH);
    let ghost ps = texts(pieces@);
    let ghost start = old(out)@;
    out.append(to_decimal(alert.ordinal).as_str());
    out.append(". | ");
    out.append(pieces[0].as_str());
    out.append(" | ");
    out.append(alert.matching_text.as_str());
    out.append("\n");
    let ghost head = out@;
    assert(ps[0] == pieces@[0]@);
    assert(head == start + (decimal_of(alert.ordinal as nat) + ". | "@ + ps[0] + " | "@
        + alert.matching_text@ + "\n"@));
    let mut k: usize = 1;
    assert(out@ + continuation_lines(ps.skip(1)) == head + continuation_lines(ps.skip(1)));
    while k < pieces.len()
        invariant
            1 <= k <= pieces@.len(),
            ps == texts(pieces@),
            out@ + continuation_lines(ps.skip(k as int)) == head + continuation_lines(ps.skip(1)),
        decreases pieces@.len() - k,
    {
        let ghost before = out@;
        let ghost rest = ps.skip(k as int);
        assert(rest[0] == pieces@[k as int]@);
        assert(rest.skip(1) =~= ps.skip(k + 1));
        out.append("   | ");
        out.append(pieces[k].as_str());
        out.append(" |\n");
        assert(out@ + continuation_lines(ps.skip(k + 1)) =~= before + continuation_lines(rest));
        k = k + 1;
    }
    assert(ps.skip(k as int) =~= Seq::<Seq<char>>::empty());
    assert(out@ + Seq::<char>::empty() =~= out@);
    assert(out@ =~= start + table_row(alert@));
}

/// Renders the alert table for `alerts`.
pub fn render_table(alerts: &Vec<Alert>) -> (r: String)
    ensures
        r@ == alert_table(views(alerts@)),
{
    let ghost rows = views(alerts@);
    let mut out = String::from_str("# | URL | Matching Text\n");
    let ghost head = out@;
    let mut i: usize = 0;
    assert(rows.skip(0) =~= rows);
    while i < alerts.len()
        invariant
            i <= alerts@.len(),
            rows == views(alerts@),
            head == "# | URL | Matching Text\n"@,
            out@ + table_rows(rows.skip(i as int)) == head + table_rows(rows),
        decreases alerts@.len() - i,
    {
        let ghost before = out@;
        let ghost rest = rows.skip(i as int);
        assert(rest[0] == alerts@[i as int]@);
        assert(rest.skip(1) =~= rows.skip(i + 1));
        push_row(&mut out, &alerts[i]);
        assert(out@ + table_rows(rows.skip(i + 1)) =~= before + table_rows(rest));
        i = i + 1;
    }
    assert(rows.skip(i as int) =~= Seq::<AlertView>::empty());
    assert(out@ + Seq::<char>::empty() =~= out@);
    out
}

/// `list`: the messages that show the user their alerts in ordinal order.
pub fn list(store: &AlertStore, user_id: u64) -> (r: Vec<String>)
    requires
        store.wf(),
    ensures
        texts(r@) == list_replies(of_user(store@, signed_user_id(user_id))),
{
    let uid = user_id_from_platform(user_id);
    let alerts = crate::conduit::list(store, uid);
    if alerts.len() == 0 {
        let mut out: Vec<String> = Vec::new();
        out.push(String::from_str("You currently have 0 alerts."));
        assert(texts(out@) =~= seq![empty_list_reply()]);
        out
    } else {
        let table = render_table(&alerts);
        split_chunks(table.as_str(), MESSAGE_LIMIT)
    }
}

/// `delete <ordinal>`: removes the user's alert with that ordinal and moves
/// the later ones down by one.
///
/// Fails, the store unchanged, when the ordinal is missing, is not a
/// decimal number, or is not one of the user's ordinals.
pub fn delete(store: &mut AlertStore, args: &Vec<String>, user_id: u64) -> (r: Result<
    String,
    CommandError,
>)
    requires
        old(store).wf(),
    ensures
        final(store).wf(),
        args@.len() == 0 ==> r == Err::<String, CommandError>(CommandError::MissingOrdinal),
        args@.len() > 0 && parse_u64_of(args@[0]@) is None ==> r == Err::<String, CommandError>(
            CommandError::InvalidOrdinal,
        ),
        args@.len() > 0 && parse_u64_of(args@[0]@) is Some ==> {
            let uid = signed_user_id(user_id);
            let o = parse_u64_of(args@[0]@)->Some_0;
            if 1 <= o <= of_user(old(store)@, uid).len() {
                r is Ok && r->Ok_0@ == deleted_reply() && final(store)@ == without(
                    old(store)@,
                    uid,
                    o,
                )
            } else {
                r == Err::<String, CommandError>(
                    CommandError::Store(crate::conduit::RepoError::NotFound),
                )
            }
        },
        r is Err ==> final(store)@ == old(store)@,
{
    if args.len() == 0 {
        return Err(CommandError::MissingOrdinal);
    }
    let o = match parse_u64(args[0].as_str()) {
        Some(o) => o,
        None => {
            return Err(CommandError::InvalidOrdinal);
        },
    };
    let uid = user_id_from_platform(user_id);
    match crate::conduit::delete(store, uid, o) {
        Ok(()) => Ok(String::from_str("Successfully deleted alert! Use ~list to see your current alerts")),
        Err(e) => Err(CommandError::Store(e)),
    }
}

/// The text reported to a user whose command failed.
pub open spec fn failure_text(command_name: Seq<char>, error: Seq<char>) -> Seq<char> {
    "Failed to run command \""@ + COMMAND_PREFIX@ + command_name + "\" due to error: "@ + error
}

/// Builds the text reported to a user whose command failed.
pub fn failure_message(command_name: &str, error: &str) -> (r: String)
    ensures
        r@ == failure_text(command_name@, error@),
{
    let mut r = String::from_str("Failed to run command \"");
    r.append(COMMAND_PREFIX);
    r.append(command_name);
    r.append("\" due to error: ");
    r.append(error);
    r
}

/// A large `list` reply is split at 1900-character boundaries: joined
/// again the messages give the whole table, every message but the last has
/// exactly 1900 characters and the last at most that; a table that fits
/// goes out as one message.
pub proof fn list_replies_split_at_limit(rows: Seq<AlertView>)
    requires
        rows.len() > 0,
    ensures
        joined(list_replies(rows)) == alert_table(rows),
        forall|k: int|
            0 <= k < list_replies(rows).len() - 1 ==> #[trigger] list_replies(rows)[k].len()
                == MESSAGE_LIMIT,
        0 < list_replies(rows).last().len() <= MESSAGE_LIMIT,
        alert_table(rows).len() <= MESSAGE_LIMIT ==> list_replies(rows) == seq![alert_table(rows)],
{
    lemma_chunks(alert_table(rows), MESSAGE_LIMIT as nat);
    reveal_strlit("# | URL | Matching Text\n");
}

} // verus!
