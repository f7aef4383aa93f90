//! Dashboards and what a listing shows of them.

use crate::json::{json_view, Json};
use serde_json::Value;
use vstd::prelude::*;

verus! {

/// A dashboard: a JSON payload with an identity, a name and two timestamps.
#[derive(Debug, PartialEq)]
pub struct Dashboard {
    pub id: String,
    pub name: String,
    pub data: Value,
    pub created_at: String,
    pub updated_at: Option<String>,
}

/// A `Dashboard` as a mathematical value.
pub ghost struct DashboardView {
    pub id: Seq<char>,
    pub name: Seq<char>,
    pub data: Json,
    pub created_at: Seq<char>,
    pub updated_at: Option<Seq<char>>,
}

/// The text in `s`, where there is one.
pub open spec fn text_of(s: Option<String>) -> Option<Seq<char>> {
    match s {
        Some(text) => Some(text@),
        None => None,
    }
}

/// What the payload in `v` holds, where there is one.
pub open spec fn payload_of(v: Option<Value>) -> Option<Json> {
    match v {
        Some(data) => Some(json_view(data)),
        None => None,
    }
}

impl View for Dashboard {
    type V = DashboardView;

    open spec fn view(&self) -> DashboardView {
        DashboardView {
            id: self.id@,
            name: self.name@,
            data: json_view(self.data),
            created_at: self.created_at@,
            updated_at: text_of(self.updated_at),
        }
    }
}

/// What a listing shows of a dashboard: all but the payload.
#[derive(Debug, PartialEq, Eq)]
pub struct DashboardListItem {
    pub id: String,
    pub name: String,
    pub created_at: String,
    pub updated_at: Option<String>,
}

/// A `DashboardListItem` as a mathematical value.
pub ghost struct ListItemView {
    pub id: Seq<char>,
    pub name: Seq<char>,
    pub created_at: Seq<char>,
    pub updated_at: Option<Seq<char>>,
}

impl View for DashboardListItem {
    type V = ListItemView;

    open spec fn view(&self) -> ListItemView {
        ListItemView {
            id: self.id@,
            name: self.name@,
            created_at: self.created_at@,
            updated_at: text_of(self.updated_at),
        }
    }
}

impl Clone for DashboardListItem {
    fn clone(&self) -> (copy: DashboardListItem)
        ensures
            copy@ == self@,
    {
        DashboardListItem {
            id: self.id.clone(),
            name: self.name.clone(),
            created_at: self.created_at.clone(),
            updated_at: copy_of(&self.updated_at),
        }
    }
}

impl DashboardView {
    /// What a listing shows of the dashboard.
    pub open spec fn list_item(self) -> ListItemView {
        ListItemView {
            id: self.id,
            name: self.name,
            created_at: self.created_at,
            updated_at: self.updated_at,
        }
    }
}

/// A copy of the text in `s`, where there is one.
pub fn copy_of(s: &Option<String>) -> (copy: Option<String>)
    ensures
        text_of(copy) == text_of(*s),
{
    match s {
        Some(text) => Some(text.clone()),
        None => None,
    }
}

impl Clone for Dashboard {
    fn clone(&self) -> (copy: Dashboard)
        ensures
            copy@ == self@,
    {
        Dashboard {
            id: self.id.clone(),
            name: self.name.clone(),
            data: self.data.clone(),
            created_at: self.created_at.clone(),
            updated_at: copy_of(&self.updated_at),
        }
    }
}

impl Dashboard {
    /// What a listing shows of the dashboard.
    pub fn list_item(&self) -> (item: DashboardListItem)
        ensures
            item@ == self@.list_item(),
    {
        DashboardListItem {
            id: self.id.clone(),
            name: self.name.clone(),
            created_at: self.created_at.clone(),
            updated_at: copy_of(&self.updated_at),
        }
    }
}

/// What a caller gives to have a dashboard created.
#[derive(Debug, PartialEq)]
pub struct CreateDashboardRequest {
    pub name: String,
    pub data: Option<Value>,
}

/// What a caller gives to have a dashboard changed: each part that is there
/// takes the place of the dashboard's own.
#[derive(Debug, PartialEq)]
pub struct UpdateDashboardRequest {
    pub name: Option<String>,
    pub data: Option<Value>,
}

} // verus!
