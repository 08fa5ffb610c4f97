//! The routing tables of the REST template: which endpoint answers which
//! method and path.  Binding the endpoints to handlers is left to the
//! server.

use vstd::prelude::*;
use vstd::string::StringExecFns;

verus! {

/// An HTTP method.
#[derive(PartialEq, Eq, Structural, Clone, Copy, Debug)]
pub enum Method {
    Get,
    Post,
    Put,
    Delete,
}

/// An endpoint of the template.
#[derive(PartialEq, Eq, Structural, Clone, Copy, Debug)]
pub enum Endpoint {
    Login,
    Register,
    GetUserProfile,
    UpdateUserProfile,
    UpdateUserPassword,
    DeleteUserProfile,
}

/// One route: the endpoint that answers `method` at `path`.
#[derive(Debug)]
pub struct Route {
    pub method: Method,
    pub path: String,
    pub endpoint: Endpoint,
}

/// The mathematical value of a [`Route`].
pub struct RouteModel {
    pub method: Method,
    pub path: Seq<char>,
    pub endpoint: Endpoint,
}

impl View for Route {
    type V = RouteModel;

    open spec fn view(&self) -> RouteModel {
        RouteModel { method: self.method, path: self.path@, endpoint: self.endpoint }
    }
}

/// The routes below one path prefix.
#[derive(Debug)]
pub struct RouteTable {
    pub scope: String,
    pub routes: Vec<Route>,
}

/// The mathematical value of a [`RouteTable`].
pub struct TableModel {
    pub scope: Seq<char>,
    pub routes: Seq<RouteModel>,
}

impl View for RouteTable {
    type V = TableModel;

    open spec fn view(&self) -> TableModel {
        TableModel {
            scope: self.scope@,
            routes: Seq::new(self.routes@.len(), |i: int| self.routes@[i]@),
        }
    }
}

/// The routes of authentication.
pub open spec fn auth_table() -> TableModel {
    TableModel {
        scope: "/auth"@,
        routes: seq![
            RouteModel { method: Method::Post, path: "/login"@, endpoint: Endpoint::Login },
            RouteModel { method: Method::Post, path: "/register"@, endpoint: Endpoint::Register },
        ],
    }
}

/// The routes of the profile of a user.
pub open spec fn profile_table() -> TableModel {
    TableModel {
        scope: "/profile"@,
        routes: seq![
            RouteModel { method: Method::Get, path: "/"@, endpoint: Endpoint::GetUserProfile },
            RouteModel {
                method: Method::Put,
                path: "/update"@,
                endpoint: Endpoint::UpdateUserProfile,
            },
            RouteModel {
                method: Method::Put,
                path: "/update-password"@,
                endpoint: Endpoint::UpdateUserPassword,
            },
            RouteModel {
                method: Method::Delete,
                path: "/delete"@,
                endpoint: Endpoint::DeleteUserProfile,
            },
        ],
    }
}

/// The route by which `endpoint` answers `method` at `path`.
fn route(method: Method, path: &str, endpoint: Endpoint) -> (r: Route)
    ensures
        r@ == (RouteModel { method, path: path@, endpoint }),
{
    Route { method, path: String::from_str(path), endpoint }
}

/// The routes of authentication.
pub fn auth_routes() -> (table: RouteTable)
    ensures
        table@ == auth_table(),
{
    let mut routes: Vec<Route> = Vec::new();
    routes.push(route(Method::Post, "/login", Endpoint::Login));
    routes.push(route(Method::Post, "/register", Endpoint::Register));
    let table = RouteTable { scope: String::from_str("/auth"), routes };
    assert(table@.routes =~= auth_table().routes);
    table
}

/// The routes of the profile of a user.
pub fn profile_routes() -> (table: RouteTable)
    ensures
        table@ == profile_table(),
{
    let mut routes: Vec<Route> = Vec::new();
    routes.push(route(Method::Get, "/", Endpoint::GetUserProfile));
    routes.push(route(Method::Put, "/update", Endpoint::UpdateUserProfile));
    routes.push(route(Method::Put, "/update-password", Endpoint::UpdateUserPassword));
    routes.push(route(Method::Delete, "/delete", Endpoint::DeleteUserProfile));
    let table = RouteTable { scope: String::from_str("/profile"), routes };
    assert(table@.routes =~= profile_table().routes);
    table
}

} // verus!
