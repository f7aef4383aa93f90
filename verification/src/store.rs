//! The operations of the store. Each takes what was read from disk, where it
//! needs any, and gives the dashboard to hand back and to write, or the error.
//! Reading and writing the files is the caller's part.

use crate::dashboard::{
    payload_of, text_of, CreateDashboardRequest, Dashboard, DashboardView, UpdateDashboardRequest,
};
use crate::errors::{ErrorView, Fault, StoreError};
use crate::identity::{is_dashboard_id, new_dashboard_id};
use crate::json::{default_data, default_payload, normalize_data, normalized, Json};
use crate::text::{blank, is_blank, lex_lt};
use crate::timestamp::{
    end_of_four_digit_years, get_now_iso, is_timestamp, iso_text, lemma_timestamps_in_order,
};
use vstd::prelude::*;
use vstd::string::*;

verus! {

/// What came of reading a dashboard's file and parsing its content.
#[derive(Debug, PartialEq)]
pub enum FileRead {
    /// There is no such file, or it cannot be read.
    Unreadable,
    /// The file was read, and its content is no dashboard; the parser's words.
    Unparsable(String),
    /// The dashboard that the file holds.
    Parsed(Dashboard),
}

/// A `FileRead` as a mathematical value.
pub ghost enum FileReadView {
    Unreadable,
    Unparsable(Seq<char>),
    Parsed(DashboardView),
}

impl View for FileRead {
    type V = FileReadView;

    open spec fn view(&self) -> FileReadView {
        match self {
            FileRead::Unreadable => FileReadView::Unreadable,
            FileRead::Unparsable(reason) => FileReadView::Unparsable(reason@),
            FileRead::Parsed(dashboard) => FileReadView::Parsed(dashboard@),
        }
    }
}

impl Clone for FileRead {
    fn clone(&self) -> (copy: FileRead)
        ensures
            copy@ == self@,
    {
        match self {
            FileRead::Unreadable => FileRead::Unreadable,
            FileRead::Unparsable(reason) => FileRead::Unparsable(reason.clone()),
            FileRead::Parsed(dashboard) => FileRead::Parsed(dashboard.clone()),
        }
    }
}

/// The dashboard that an import stores under `id` at the time `now`: named
/// after the payload's name, or `Imported Dashboard` where that is blank, with
/// ` (imported)` behind it; the payload's data normalized; identity and
/// timestamps of the payload dropped.
pub open spec fn imported(id: Seq<char>, now: Seq<char>, payload: DashboardView) -> DashboardView {
    DashboardView {
        id,
        name: imported_name(payload.name),
        data: normalized(payload.data),
        created_at: now,
        updated_at: Some(now),
    }
}

/// The name that an import gives to a dashboard that came as `name`.
pub open spec fn imported_name(name: Seq<char>) -> Seq<char> {
    if is_blank(name) {
        "Imported Dashboard"@ + " (imported)"@
    } else {
        name + " (imported)"@
    }
}

/// An import refuses a payload that has neither a name nor an object as data.
pub open spec fn import_refuses(payload: DashboardView) -> bool {
    !(payload.data is Object) && is_blank(payload.name)
}

/// Imports `payload` under the identifier `id` at the time `now`.
pub fn import_with(id: String, now: String, payload: Dashboard) -> (r: Result<
    Dashboard,
    StoreError,
>)
    ensures
        match r {
            Ok(d) => !import_refuses(payload@) && d@ == imported(id@, now@, payload@),
            Err(e) => import_refuses(payload@) && e@ == ErrorView::InvalidPayload,
        },
{
    let nameless = blank(payload.name.as_str());
    if !payload.data.is_object() && nameless {
        return Err(StoreError::InvalidPayload);
    }
    let data = normalize_data(payload.data);
    let name = if nameless {
        String::from_str("Imported Dashboard")
    } else {
        payload.name
    };
    let stamp = now.clone();
    Ok(
        Dashboard {
            id,
            name: name.concat(" (imported)"),
            data,
            created_at: now,
            updated_at: Some(stamp),
        },
    )
}

/// Imports `payload` under a fresh identifier, at the time the clock gives.
pub fn import_dashboard(payload: Dashboard) -> (r: Result<Dashboard, StoreError>)
    ensures
        match r {
            Ok(d) => {
                &&& !import_refuses(payload@)
                &&& is_dashboard_id(d@.id)
                &&& is_timestamp(d@.created_at)
                &&& d@ == imported(d@.id, d@.created_at, payload@)
            },
            Err(e) => import_refuses(payload@) && e@ == ErrorView::InvalidPayload,
        },
{
    let id = new_dashboard_id();
    let now = get_now_iso();
    import_with(id, now, payload)
}

/// The dashboard that is created under `id` at the time `now`, with the
/// default payload where none is given.
pub open spec fn created(id: Seq<char>, now: Seq<char>, name: Seq<char>, data: Option<Json>)
    -> DashboardView {
    DashboardView {
        id,
        name,
        data: match data {
            Some(payload) => payload,
            None => default_payload(),
        },
        created_at: now,
        updated_at: Some(now),
    }
}

/// Creates a dashboard under the identifier `id` at the time `now`.
pub fn create_with(id: String, now: String, req: CreateDashboardRequest) -> (d: Dashboard)
    ensures
        d@ == created(id@, now@, req.name@, payload_of(req.data)),
{
    let data = match req.data {
        Some(payload) => payload,
        None => default_data(),
    };
    let stamp = now.clone();
    Dashboard { id, name: req.name, data, created_at: now, updated_at: Some(stamp) }
}

/// Creates a dashboard under a fresh identifier, at the time the clock gives.
pub fn create_dashboard(req: CreateDashboardRequest) -> (d: Dashboard)
    ensures
        is_dashboard_id(d@.id),
        is_timestamp(d@.created_at),
        d@ == created(d@.id, d@.created_at, req.name@, payload_of(req.data)),
{
    let id = new_dashboard_id();
    let now = get_now_iso();
    create_with(id, now, req)
}

/// `current` after an update at the time `now`: a name or a payload that is
/// given takes the place of the old one, whole; what is not given stays.
/// Identifier and time of creation stay in any case.
pub open spec fn updated(
    current: DashboardView,
    name: Option<Seq<char>>,
    data: Option<Json>,
    now: Seq<char>,
) -> DashboardView {
    DashboardView {
        id: current.id,
        name: match name {
            Some(text) => text,
            None => current.name,
        },
        data: match data {
            Some(payload) => payload,
            None => current.data,
        },
        created_at: current.created_at,
        updated_at: Some(now),
    }
}

/// Applies `req` to `current` at the time `now`.
pub fn update_with(current: Dashboard, req: UpdateDashboardRequest, now: String) -> (d: Dashboard)
    ensures
        d@ == updated(current@, text_of(req.name), payload_of(req.data), now@),
{
    let mut dashboard = current;
    if let Some(name) = req.name {
        dashboard.name = name;
    }
    if let Some(data) = req.data {
        dashboard.data = data;
    }
    dashboard.updated_at = Some(now);
    dashboard
}

/// What a reader of the document `id` gets, given what its file gave.
pub open spec fn fetched(id: Seq<char>, file: FileReadView) -> Result<DashboardView, ErrorView> {
    match file {
        FileReadView::Unreadable => Err(ErrorView::NotFound { id }),
        FileReadView::Unparsable(reason) => Err(ErrorView::Internal { fault: Fault::Parse, reason }),
        FileReadView::Parsed(dashboard) => Ok(dashboard),
    }
}

/// A `Result` of the store as a mathematical value.
pub open spec fn outcome(r: Result<Dashboard, StoreError>) -> Result<DashboardView, ErrorView> {
    match r {
        Ok(d) => Ok(d@),
        Err(e) => Err(e@),
    }
}

/// The dashboard `id`, given what came of reading its file: the dashboard in
/// it; `NotFound` where the file cannot be read; an internal error where its
/// content is no dashboard.
pub fn get_dashboard(id: &str, file: FileRead) -> (r: Result<Dashboard, StoreError>)
    ensures
        outcome(r) == fetched(id@, file@),
{
    match file {
        FileRead::Unreadable => Err(StoreError::not_found(id)),
        FileRead::Unparsable(reason) => Err(StoreError::Internal { fault: Fault::Parse, reason }),
        FileRead::Parsed(dashboard) => Ok(dashboard),
    }
}

/// Updates the dashboard `id`, given what came of reading its file: fails as
/// `get_dashboard` does, and else gives the dashboard to write back, changed
/// as `req` asks and stamped with the time the clock gives.
pub fn update_dashboard(id: &str, file: FileRead, req: UpdateDashboardRequest) -> (r: Result<
    Dashboard,
    StoreError,
>)
    ensures
        match fetched(id@, file@) {
            Ok(current) => r matches Ok(d) && d@.updated_at matches Some(now) && is_timestamp(now)
                && d@ == updated(current, text_of(req.name), payload_of(req.data), now),
            Err(e) => r matches Err(f) && f@ == e,
        },
{
    match get_dashboard(id, file) {
        Ok(current) => Ok(update_with(current, req, get_now_iso())),
        Err(e) => Err(e),
    }
}

/// Closes the removal of the dashboard `id`: `removed` says whether its file
/// could be removed. Where it could not, for whatever reason, the dashboard
/// counts as not found.
pub fn delete_dashboard(id: &str, removed: bool) -> (r: Result<(), StoreError>)
    ensures
        match r {
            Ok(_) => removed,
            Err(e) => !removed && e@ == (ErrorView::NotFound { id: id@ }),
        },
{
    if removed {
        Ok(())
    } else {
        Err(StoreError::not_found(id))
    }
}

/// A dashboard that is read back as it was written at its creation shows the
/// name it was created with, the payload it was created with, or the default
/// one, and one time for its creation and its last change.
pub proof fn lemma_created_then_fetched(
    id: Seq<char>,
    now: Seq<char>,
    name: Seq<char>,
    data: Option<Json>,
)
    ensures
        fetched(id, FileReadView::Parsed(created(id, now, name, data))) matches Ok(d) && {
            &&& d.id == id
            &&& d.name == name
            &&& d.data == match data {
                Some(payload) => payload,
                None => default_payload(),
            }
            &&& d.created_at == now
            &&& d.updated_at == Some(now)
        },
{
}

/// An update that gives neither a name nor a payload changes nothing but the
/// time of the last change.
pub proof fn lemma_update_without_parts(current: DashboardView, now: Seq<char>)
    ensures
        updated(current, None, None, now) == (DashboardView { updated_at: Some(now), ..current }),
{
}

/// An update never sets the time of the last change back, as long as the
/// clock does not go back and the year has four digits.
pub proof fn lemma_update_advances(
    current: DashboardView,
    name: Option<Seq<char>>,
    data: Option<Json>,
    before: (nat, nat),
    now: (nat, nat),
)
    requires
        current.updated_at == Some(iso_text(before.0, before.1)),
        before.0 < now.0 || (before.0 == now.0 && before.1 <= now.1),
        now.0 < end_of_four_digit_years(),
        before.1 < 1000,
        now.1 < 1000,
    ensures
        updated(current, name, data, iso_text(now.0, now.1)).updated_at matches Some(stamp)
            && !lex_lt(stamp, current.updated_at->0),
{
    lemma_timestamps_in_order(now.0, now.1, before.0, before.1);
}

/// A dashboard whose file is gone is not found.
pub proof fn lemma_removed_is_not_found(id: Seq<char>)
    ensures
        fetched(id, FileReadView::Unreadable) == Err::<DashboardView, ErrorView>(
            ErrorView::NotFound { id },
        ),
{
}

} // verus!
