//! Authentication contexts for the admin API: a user, the
//! authorization chosen by an auth key, and permission checks against
//! a role table.

use vstd::prelude::*;
use crate::config::MatcherConfig;
use crate::error::ApiError;
use crate::value::str_eq;

verus! {

/// A permission the admin API may require.
#[derive(Debug, Clone, Copy, PartialEq, Eq, Structural)]
pub enum Permission {
    ConfigEdit,
    ConfigView,
    RuntimeConfigEdit,
    RuntimeConfigView,
}

/// What a user may touch: a node path and the roles granted there.
#[derive(Debug, PartialEq)]
pub struct Authorization {
    pub path: Vec<String>,
    pub roles: Vec<String>,
}

/// Per-user interface preferences.
#[derive(Debug, PartialEq)]
pub struct UserPreferences {
    pub language: Option<String>,
}

/// The authentication data carried by one request, after the auth key
/// chose an authorization.
#[derive(Debug, PartialEq)]
pub struct AuthV2 {
    pub user: String,
    pub authorization: Authorization,
    pub preferences: Option<UserPreferences>,
}

/// The decoded authentication header: one authorization per auth key.
#[derive(Debug, PartialEq)]
pub struct AuthHeaderV2 {
    pub user: String,
    pub auths: Vec<(String, Authorization)>,
    pub preferences: Option<UserPreferences>,
}

/// The mirror of a role table: for each permission, the roles that
/// grant it.
pub open spec fn map_models(map: Seq<(Permission, Vec<String>)>) -> Seq<
    (Permission, Seq<Seq<char>>),
>
    decreases map,
{
    if map.len() == 0 {
        Seq::empty()
    } else {
        seq![(map[0].0, map[0].1.deep_view())] + map_models(map.subrange(1, map.len() as int))
    }
}

pub broadcast proof fn lemma_map_models_len(map: Seq<(Permission, Vec<String>)>)
    ensures
        #[trigger] map_models(map).len() == map.len(),
    decreases map,
{
    if map.len() > 0 {
        lemma_map_models_len(map.subrange(1, map.len() as int));
    }
}

pub broadcast proof fn lemma_map_models_index(map: Seq<(Permission, Vec<String>)>, i: int)
    requires
        0 <= i < map.len(),
    ensures
        #[trigger] map_models(map)[i] == (map[i].0, map[i].1.deep_view()),
    decreases map,
{
    lemma_map_models_len(map);
    if i > 0 {
        lemma_map_models_index(map.subrange(1, map.len() as int), i - 1);
    }
}

/// Whether some role in `roles` grants `permission` under `map`: the
/// table row of the permission names it.
pub open spec fn permission_granted(
    map: Seq<(Permission, Seq<Seq<char>>)>,
    roles: Seq<Seq<char>>,
    permission: Permission,
) -> bool {
    exists|i: int, a: int, b: int|
        0 <= i < map.len() && map[i].0 == permission && 0 <= a < map[i].1.len() && 0 <= b
            < roles.len() && #[trigger] map[i].1[a] == #[trigger] roles[b]
}

/// Whether some permission among `permissions` is granted.
pub open spec fn any_permission_granted(
    map: Seq<(Permission, Seq<Seq<char>>)>,
    roles: Seq<Seq<char>>,
    permissions: Seq<Permission>,
) -> bool {
    exists|p: int|
        0 <= p < permissions.len() && permission_granted(map, roles, #[trigger] permissions[p])
}

/// Whether the roles of `roles` contain any role granting any of the
/// permissions.
pub fn roles_contain_any_permission(
    map: &Vec<(Permission, Vec<String>)>,
    roles: &Vec<String>,
    permissions: &Vec<Permission>,
) -> (r: bool)
    ensures
        r == any_permission_granted(map_models(map@), roles.deep_view(), permissions@),
{
    proof {
        lemma_map_models_len(map@);
    }
    let np = permissions.len();
    let mut p: usize = 0;
    while p < np
        invariant
            p <= np,
            np == permissions@.len(),
            map_models(map@).len() == map@.len(),
            forall|q: int|
                0 <= q < p ==> !permission_granted(
                    map_models(map@),
                    roles.deep_view(),
                    #[trigger] permissions@[q],
                ),
        decreases np - p,
    {
        let nm = map.len();
        let mut i: usize = 0;
        while i < nm
            invariant
                p < np,
                np == permissions@.len(),
                i <= nm,
                nm == map@.len(),
                map_models(map@).len() == nm,
                forall|ii: int, a: int, b: int|
                    0 <= ii < i && map_models(map@)[ii].0 == permissions@[p as int] && 0 <= a
                        < map_models(map@)[ii].1.len() && 0 <= b < roles.deep_view().len()
                        ==> #[trigger] map_models(map@)[ii].1[a] != #[trigger] roles.deep_view(
                    )[b],
            decreases nm - i,
        {
            proof {
                lemma_map_models_index(map@, i as int);
            }
            let same = match (&map[i].0, &permissions[p]) {
                (Permission::ConfigEdit, Permission::ConfigEdit) => true,
                (Permission::ConfigView, Permission::ConfigView) => true,
                (Permission::RuntimeConfigEdit, Permission::RuntimeConfigEdit) => true,
                (Permission::RuntimeConfigView, Permission::RuntimeConfigView) => true,
                _ => false,
            };
            if same {
                proof {
                    assert(map_models(map@)[i as int].0 == permissions@[p as int]);
                }
                let allowed = &map[i].1;
                let na = allowed.len();
                let mut a: usize = 0;
                while a < na
                    invariant
                        p < np,
                        np == permissions@.len(),
                        i < nm,
                        nm == map@.len(),
                        map_models(map@).len() == nm,
                        allowed == &map@[i as int].1,
                        map_models(map@)[i as int].0 == permissions@[p as int],
                        map_models(map@)[i as int].1 == allowed.deep_view(),
                        a <= na,
                        na == allowed@.len(),
                        allowed.deep_view().len() == na,
                        forall|aa: int, b: int|
                            0 <= aa < a && 0 <= b < roles.deep_view().len()
                                ==> #[trigger] allowed.deep_view()[aa]
                                != #[trigger] roles.deep_view()[b],
                    decreases na - a,
                {
                    let nr = roles.len();
                    let mut b: usize = 0;
                    while b < nr
                        invariant
                            p < np,
                            np == permissions@.len(),
                            i < nm,
                            nm == map@.len(),
                            map_models(map@).len() == nm,
                            allowed == &map@[i as int].1,
                            map_models(map@)[i as int].0 == permissions@[p as int],
                            map_models(map@)[i as int].1 == allowed.deep_view(),
                            a < na,
                            na == allowed@.len(),
                            allowed.deep_view().len() == na,
                            b <= nr,
                            nr == roles@.len(),
                            roles.deep_view().len() == nr,
                            forall|bb: int|
                                0 <= bb < b ==> allowed.deep_view()[a as int] != (
                                #[trigger] roles.deep_view()[bb]),
                        decreases nr - b,
                    {
                        if str_eq(allowed[a].as_str(), roles[b].as_str()) {
                            proof {
                                lemma_map_models_index(map@, i as int);
                                assert(allowed.deep_view()[a as int] == allowed@[a as int]@);
                                assert(roles.deep_view()[b as int] == roles@[b as int]@);
                                assert(permission_granted(
                                    map_models(map@),
                                    roles.deep_view(),
                                    permissions@[p as int],
                                )) by {
                                    assert((map_models(map@)[i as int]).0 == permissions@[
                                        p as int
                                    ] && map_models(map@)[i as int].1[a as int]
                                        == roles.deep_view()[b as int]);
                                }
                            }
                            return true;
                        }
                        proof {
                            assert(allowed.deep_view()[a as int] == allowed@[a as int]@);
                            assert(roles.deep_view()[b as int] == roles@[b as int]@);
                        }
                        b = b + 1;
                    }
                    a = a + 1;
                }
            }
            i = i + 1;
        }
        proof {
            assert(!permission_granted(
                map_models(map@),
                roles.deep_view(),
                permissions@[p as int],
            ));
        }
        p = p + 1;
    }
    false
}

/// An authenticated caller: the chosen authorization and the role
/// table to check permissions against.
#[derive(Debug, PartialEq)]
pub struct AuthContextV2 {
    pub auth: AuthV2,
    pub valid: bool,
    pub permission_roles_map: Vec<(Permission, Vec<String>)>,
}

/// Something owned by a user: the owner check compares its owner to
/// the caller.
pub trait WithOwner {
    /// The object's id.
    spec fn id_view(&self) -> Seq<char>;

    /// The owner's user name.
    spec fn owner_view(&self) -> Seq<char>;

    /// The object's id.
    fn get_id(&self) -> (r: &str)
        ensures
            r@ == self.id_view(),
    ;

    /// The owner's user name.
    fn get_owner_id(&self) -> (r: &str)
        ensures
            r@ == self.owner_view(),
    ;
}

/// A draft of the configuration, owned by the user editing it.
#[derive(Debug, PartialEq)]
pub struct MatcherConfigDraftData {
    pub draft_id: String,
    pub user: String,
}

/// A draft of the configuration, owned by the user editing it.
#[derive(Debug, PartialEq)]
pub struct MatcherConfigDraft {
    pub data: MatcherConfigDraftData,
    pub config: MatcherConfig,
}

impl WithOwner for MatcherConfigDraft {
    open spec fn id_view(&self) -> Seq<char> {
        self.data.draft_id@
    }

    open spec fn owner_view(&self) -> Seq<char> {
        self.data.user@
    }

    fn get_id(&self) -> (r: &str) {
        self.data.draft_id.as_str()
    }

    fn get_owner_id(&self) -> (r: &str) {
        self.data.user.as_str()
    }
}

impl AuthContextV2 {
    /// A context is valid exactly when the user name is non-empty.
    pub fn new(auth: AuthV2, permission_roles_map: Vec<(Permission, Vec<String>)>) -> (r:
        AuthContextV2)
        ensures
            r.valid == (auth.user@.len() > 0),
            r.auth == auth,
            r.permission_roles_map == permission_roles_map,
    {
        let valid = auth.user.as_str().unicode_len() > 0;
        AuthContextV2 { auth, valid, permission_roles_map }
    }

    /// Picks the authorization stored under `auth_key` out of the
    /// header; fails when the header holds no such key.
    pub fn from_header(
        auth_header: AuthHeaderV2,
        auth_key: &str,
        permission_roles_map: Vec<(Permission, Vec<String>)>,
    ) -> (r: Result<AuthContextV2, ApiError>)
        ensures
            match r {
                Ok(c) => (exists|i: int|
                    0 <= i < auth_header.auths@.len() && (
                    #[trigger] auth_header.auths@[i]).0@ == auth_key@) && c.auth.user
                    == auth_header.user && c.auth.preferences == auth_header.preferences
                    && c.valid == (auth_header.user@.len() > 0)
                    && c.permission_roles_map == permission_roles_map && (exists|i: int|
                    0 <= i < auth_header.auths@.len() && (
                    #[trigger] auth_header.auths@[i]).0@ == auth_key@ && c.auth.authorization
                        == auth_header.auths@[i].1),
                Err(e) => !(exists|i: int|
                    0 <= i < auth_header.auths@.len() && (
                    #[trigger] auth_header.auths@[i]).0@ == auth_key@) && e
                    is InvalidAuthKeyError,
            },
    {
        let AuthHeaderV2 { user, mut auths, preferences } = auth_header;
        let n = auths.len();
        let mut i: usize = 0;
        while i < n
            invariant
                i <= n,
                n == auths@.len(),
                auths@ == auth_header.auths@,
                user == auth_header.user,
                preferences == auth_header.preferences,
                forall|j: int| 0 <= j < i ==> (#[trigger] auths@[j]).0@ != auth_key@,
            decreases n - i,
        {
            if str_eq(auths[i].0.as_str(), auth_key) {
                let entry = auths.remove(i);
                let auth = AuthV2 { user, authorization: entry.1, preferences };
                let valid = auth.user.as_str().unicode_len() > 0;
                return Ok(AuthContextV2 { auth, valid, permission_roles_map });
            }
            i = i + 1;
        }
        Err(
            ApiError::InvalidAuthKeyError {
                message: "authentication header does not hold the auth key".to_owned(),
            },
        )
    }

    /// Succeeds exactly when the caller is authenticated; an
    /// unauthenticated caller gets the unauthenticated error.
    pub fn is_authenticated(&self) -> (r: Result<(), ApiError>)
        ensures
            r is Ok <==> self.valid,
            r is Err ==> r->Err_0 is UnauthenticatedError,
    {
        if !self.valid {
            return Err(ApiError::UnauthenticatedError);
        }
        Ok(())
    }

    /// Succeeds exactly when the caller is authenticated and one of
    /// its roles grants the permission.
    pub fn has_permission(&self, permission: &Permission) -> (r: Result<(), ApiError>)
        ensures
            r is Ok <==> (self.valid && permission_granted(
                map_models(self.permission_roles_map@),
                self.auth.authorization.roles.deep_view(),
                *permission,
            )),
            !self.valid ==> r matches Err(ApiError::UnauthenticatedError),
            r is Err && self.valid ==> (r->Err_0 matches ApiError::ForbiddenError {
                code,
                message,
                params,
            } && code@ == "MISSING_REQUIRED_PERMISSIONS"@ && params@.len() == 0),
    {
        let mut permissions: Vec<Permission> = Vec::new();
        permissions.push(*permission);
        let r = self.has_any_permission(&permissions);
        proof {
            assert(permissions@.len() == 1 && permissions@[0] == *permission);
            if permission_granted(
                map_models(self.permission_roles_map@),
                self.auth.authorization.roles.deep_view(),
                *permission,
            ) {
                assert(any_permission_granted(
                    map_models(self.permission_roles_map@),
                    self.auth.authorization.roles.deep_view(),
                    permissions@,
                )) by {
                    assert(permission_granted(
                        map_models(self.permission_roles_map@),
                        self.auth.authorization.roles.deep_view(),
                        permissions@[0],
                    ));
                }
            }
        }
        r
    }

    /// Succeeds exactly when the caller is authenticated and one of
    /// its roles grants at least one of the permissions.
    pub fn has_any_permission(&self, permissions: &Vec<Permission>) -> (r: Result<(), ApiError>)
        ensures
            r is Ok <==> (self.valid && any_permission_granted(
                map_models(self.permission_roles_map@),
                self.auth.authorization.roles.deep_view(),
                permissions@,
            )),
            !self.valid ==> r matches Err(ApiError::UnauthenticatedError),
            r is Err && self.valid ==> (r->Err_0 matches ApiError::ForbiddenError {
                code,
                message,
                params,
            } && code@ == "MISSING_REQUIRED_PERMISSIONS"@ && params@.len() == 0),
    {
        if let Err(e) = self.is_authenticated() {
            return Err(e);
        }
        if roles_contain_any_permission(
            &self.permission_roles_map,
            &self.auth.authorization.roles,
            permissions,
        ) {
            Ok(())
        } else {
            let e = ApiError::ForbiddenError {
                code: "MISSING_REQUIRED_PERMISSIONS".to_owned(),
                message: "the user does not hold the required permissions".to_owned(),
                params: Vec::new(),
            };
            Err(e)
        }
    }

    /// Succeeds exactly when the caller is authenticated and owns the
    /// object.
    pub fn is_owner<T: WithOwner>(&self, obj: &T) -> (r: Result<(), ApiError>)
        ensures
            r is Ok <==> (self.valid && self.auth.user@ == obj.owner_view()),
            !self.valid ==> r matches Err(ApiError::UnauthenticatedError),
            r is Err && self.valid ==> (r->Err_0 matches ApiError::ForbiddenError {
                code,
                message,
                params,
            } && code@ == "NOT_OWNER"@ && params@.len() == 2 && params@[0].0@ == "OWNER"@
                && params@[0].1@ == obj.owner_view() && params@[1].0@ == "ID"@
                && params@[1].1@ == obj.id_view()),
    {
        if let Err(e) = self.is_authenticated() {
            return Err(e);
        }
        let owner = obj.get_owner_id();
        if str_eq(self.auth.user.as_str(), owner) {
            Ok(())
        } else {
            let mut params: Vec<(String, String)> = Vec::new();
            params.push(("OWNER".to_owned(), owner.to_owned()));
            params.push(("ID".to_owned(), obj.get_id().to_owned()));
            let e = ApiError::ForbiddenError {
                code: "NOT_OWNER".to_owned(),
                message: "the user is not the owner of the object".to_owned(),
                params,
            };
            Err(e)
        }
    }
}

/// The authentication service: holds the role table and builds
/// contexts for requests.
#[derive(Debug)]
pub struct AuthServiceV2 {
    pub permission_roles_map: Vec<(Permission, Vec<String>)>,
}

impl AuthServiceV2 {
    /// A service over the given role table.
    pub fn new(permission_roles_map: Vec<(Permission, Vec<String>)>) -> (r: AuthServiceV2)
        ensures
            r.permission_roles_map == permission_roles_map,
    {
        AuthServiceV2 { permission_roles_map }
    }
}

} // verus!
