//! The durable bookkeeping store: one record per declared environment,
//! a store-wide default install location, and one credential per private
//! registry.
//!
//! Every mutating flow loads the store, changes it in memory through the
//! functions here, and saves it whole; the functions state exactly how the
//! new store relates to the old one.

use vstd::prelude::*;
use crate::errors::DragonError;
use crate::strutil::{ends_with_spec, str_concat, str_concat3, str_eq, str_ends_with};

verus! {

/// One declared environment: a name bound to an image reference, a
/// terminal profile id allocated at creation, and an install location.
#[derive(Debug, Clone)]
pub struct WslConf {
    pub name: String,
    pub image: String,
    pub latest: Option<String>,
    pub windows_terminal_profile_id: String,
    pub base_install_path: String,
}

/// The credential for one private registry.
#[derive(Debug, Clone)]
pub struct Registry {
    pub name: String,
    pub username: String,
    pub password: String,
    pub tenant: Option<String>,
}

/// The whole store: environment records in display order (new entries are
/// prepended), the default install location, and the credentials.
#[derive(Debug, Clone)]
pub struct DockerWslConf {
    pub wsls: Vec<WslConf>,
    pub default_base_wsl_install_path: Option<String>,
    pub private_registries: Vec<Registry>,
}

/// Some record in `ws` is named `name`.
pub open spec fn has_wsl(ws: Seq<WslConf>, name: Seq<char>) -> bool {
    exists|i: int| 0 <= i < ws.len() && ws[i].name@ == name
}

/// Some credential in `rs` is for the registry `name`.
pub open spec fn has_registry(rs: Seq<Registry>, name: Seq<char>) -> bool {
    exists|i: int| 0 <= i < rs.len() && rs[i].name@ == name
}

/// Record names are unique, and so are credential hosts.
pub open spec fn conf_wf(c: DockerWslConf) -> bool {
    &&& forall|i: int, j: int|
        0 <= i < j < c.wsls@.len() ==> c.wsls@[i].name@ != c.wsls@[j].name@
    &&& forall|i: int, j: int|
        0 <= i < j < c.private_registries@.len()
            ==> c.private_registries@[i].name@ != c.private_registries@[j].name@
}

/// The store a missing config document stands for: no records, no default
/// install location, no credentials.
pub fn empty_conf() -> (r: DockerWslConf)
    ensures
        r.wsls@.len() == 0,
        r.default_base_wsl_install_path is None,
        r.private_registries@.len() == 0,
        conf_wf(r),
{
    DockerWslConf {
        wsls: Vec::new(),
        default_base_wsl_install_path: None,
        private_registries: Vec::new(),
    }
}

/// Index of the first record in `ws` named `name`, or `-1`.
pub open spec fn first_wsl(ws: Seq<WslConf>, name: Seq<char>) -> int
    decreases ws.len(),
{
    if ws.len() == 0 {
        -1
    } else if ws[0].name@ == name {
        0
    } else {
        let r = first_wsl(ws.drop_first(), name);
        if r == -1 {
            -1
        } else {
            r + 1
        }
    }
}

/// `first_wsl` points at the first matching record, and is `-1` exactly
/// when no record matches.
pub proof fn lemma_first_wsl_props(ws: Seq<WslConf>, name: Seq<char>)
    ensures
        first_wsl(ws, name) >= -1,
        first_wsl(ws, name) >= 0 ==> first_wsl(ws, name) < ws.len() && ws[first_wsl(ws, name)].name@
            == name && forall|j: int| 0 <= j < first_wsl(ws, name) ==> ws[j].name@ != name,
        first_wsl(ws, name) == -1 ==> !has_wsl(ws, name),
    decreases ws.len(),
{
    if ws.len() > 0 && ws[0].name@ != name {
        let t = ws.drop_first();
        lemma_first_wsl_props(t, name);
        let r = first_wsl(t, name);
        if r == -1 {
            assert forall|k: int| 0 <= k < ws.len() implies ws[k].name@ != name by {
                if k > 0 {
                    assert(t[k - 1] == ws[k]);
                    assert(t[k - 1].name@ != name);
                }
            }
        } else {
            assert(ws[r + 1] == t[r]);
            assert forall|j: int| 0 <= j < r + 1 implies ws[j].name@ != name by {
                if j > 0 {
                    assert(t[j - 1] == ws[j]);
                    assert(t[j - 1].name@ != name);
                }
            }
        }
    }
}

/// Index of the first credential in `rs` for `name`, or `-1`.
pub open spec fn first_registry(rs: Seq<Registry>, name: Seq<char>) -> int
    decreases rs.len(),
{
    if rs.len() == 0 {
        -1
    } else if rs[0].name@ == name {
        0
    } else {
        let r = first_registry(rs.drop_first(), name);
        if r == -1 {
            -1
        } else {
            r + 1
        }
    }
}

/// `first_registry` points at the first matching credential, and is `-1`
/// exactly when no credential matches.
pub proof fn lemma_first_registry_props(rs: Seq<Registry>, name: Seq<char>)
    ensures
        first_registry(rs, name) >= -1,
        first_registry(rs, name) >= 0 ==> first_registry(rs, name) < rs.len() && rs[first_registry(
            rs,
            name,
        )].name@ == name && forall|j: int|
            0 <= j < first_registry(rs, name) ==> rs[j].name@ != name,
        first_registry(rs, name) == -1 ==> !has_registry(rs, name),
    decreases rs.len(),
{
    if rs.len() > 0 && rs[0].name@ != name {
        let t = rs.drop_first();
        lemma_first_registry_props(t, name);
        let r = first_registry(t, name);
        if r == -1 {
            assert forall|k: int| 0 <= k < rs.len() implies rs[k].name@ != name by {
                if k > 0 {
                    assert(t[k - 1] == rs[k]);
                    assert(t[k - 1].name@ != name);
                }
            }
        } else {
            assert(rs[r + 1] == t[r]);
            assert forall|j: int| 0 <= j < r + 1 implies rs[j].name@ != name by {
                if j > 0 {
                    assert(t[j - 1] == rs[j]);
                    assert(t[j - 1].name@ != name);
                }
            }
        }
    }
}

/// Index of the first record named `name`, if any.
pub fn find_wsl(c: &DockerWslConf, name: &str) -> (r: Option<usize>)
    ensures
        match r {
            Some(i) => i == first_wsl(c.wsls@, name@) && i < c.wsls@.len() && c.wsls@[i as int].name@
                == name@ && forall|j: int| 0 <= j < i ==> c.wsls@[j].name@ != name@,
            None => first_wsl(c.wsls@, name@) == -1 && !has_wsl(c.wsls@, name@),
        },
{
    proof {
        lemma_first_wsl_props(c.wsls@, name@);
    }
    let mut i: usize = 0;
    while i < c.wsls.len()
        invariant
            i <= c.wsls@.len(),
            forall|j: int| 0 <= j < i ==> c.wsls@[j].name@ != name@,
        decreases c.wsls@.len() - i,
    {
        if str_eq(c.wsls[i].name.as_str(), name) {
            proof {
                lemma_first_wsl_props(c.wsls@, name@);
                let fw = first_wsl(c.wsls@, name@);
                if fw == -1 {
                    assert(c.wsls@[i as int].name@ == name@);
                    assert(has_wsl(c.wsls@, name@));
                } else if fw < i {
                    assert(c.wsls@[fw].name@ != name@);
                } else if fw > i {
                    assert(c.wsls@[i as int].name@ != name@);
                }
            }
            return Some(i);
        }
        i += 1;
    }
    proof {
        let fw = first_wsl(c.wsls@, name@);
        if fw >= 0 {
            assert(c.wsls@[fw].name@ != name@);
        }
        assert forall|k: int| 0 <= k < c.wsls@.len() implies c.wsls@[k].name@ != name@ by {}
    }
    None
}

/// Index of the first credential for the registry `name`, if any.
pub fn find_registry(c: &DockerWslConf, name: &str) -> (r: Option<usize>)
    ensures
        match r {
            Some(i) => i == first_registry(c.private_registries@, name@) && i
                < c.private_registries@.len() && c.private_registries@[i as int].name@ == name@
                && forall|j: int| 0 <= j < i ==> c.private_registries@[j].name@ != name@,
            None => first_registry(c.private_registries@, name@) == -1 && !has_registry(
                c.private_registries@,
                name@,
            ),
        },
{
    proof {
        lemma_first_registry_props(c.private_registries@, name@);
    }
    let mut i: usize = 0;
    while i < c.private_registries.len()
        invariant
            i <= c.private_registries@.len(),
            forall|j: int| 0 <= j < i ==> c.private_registries@[j].name@ != name@,
        decreases c.private_registries@.len() - i,
    {
        if str_eq(c.private_registries[i].name.as_str(), name) {
            proof {
                lemma_first_registry_props(c.private_registries@, name@);
                let fr = first_registry(c.private_registries@, name@);
                if fr == -1 {
                    assert(c.private_registries@[i as int].name@ == name@);
                    assert(has_registry(c.private_registries@, name@));
                } else if fr < i {
                    assert(c.private_registries@[fr].name@ != name@);
                } else if fr > i {
                    assert(c.private_registries@[i as int].name@ != name@);
                }
            }
            return Some(i);
        }
        i += 1;
    }
    proof {
        let fr = first_registry(c.private_registries@, name@);
        if fr >= 0 {
            assert(c.private_registries@[fr].name@ != name@);
        }
    }
    None
}

/// Prepends the record for a newly created environment; a taken name is
/// refused and leaves the store untouched.
pub fn create_dockerwsl_config_entry(
    conf: &mut DockerWslConf,
    image_url: &str,
    wsl_name: &str,
    wt_profile_id: &str,
    base_install_path: &str,
    latest_tag_str: &str,
) -> (r: Result<(), DragonError>)
    ensures
        match r {
            Ok(()) => {
                &&& !has_wsl(old(conf).wsls@, wsl_name@)
                &&& final(conf).wsls@.len() == old(conf).wsls@.len() + 1
                &&& final(conf).wsls@[0].name@ == wsl_name@
                &&& final(conf).wsls@[0].image@ == image_url@
                &&& final(conf).wsls@[0].latest matches Some(l) && l@ == latest_tag_str@
                &&& final(conf).wsls@[0].windows_terminal_profile_id@ == wt_profile_id@
                &&& final(conf).wsls@[0].base_install_path@ == base_install_path@
                &&& forall|i: int|
                    0 <= i < old(conf).wsls@.len()
                        ==> final(conf).wsls@[i + 1] == old(conf).wsls@[i]
                &&& final(conf).default_base_wsl_install_path
                    == old(conf).default_base_wsl_install_path
                &&& final(conf).private_registries == old(conf).private_registries
                &&& conf_wf(*old(conf)) ==> conf_wf(*final(conf))
            },
            Err(e) => {
                &&& e == DragonError::DuplicateName
                &&& has_wsl(old(conf).wsls@, wsl_name@)
                &&& *final(conf) == *old(conf)
            },
        },
{
    if find_wsl(conf, wsl_name).is_some() {
        return Err(DragonError::DuplicateName);
    }
    let entry = WslConf {
        name: String::from_str(wsl_name),
        image: String::from_str(image_url),
        latest: Some(String::from_str(latest_tag_str)),
        windows_terminal_profile_id: String::from_str(wt_profile_id),
        base_install_path: String::from_str(base_install_path),
    };
    conf.wsls.insert(0, entry);
    Ok(())
}

/// A freshly created record takes its name: a later creation under the
/// same name meets the duplicate guard of the creation contract, which
/// refuses with `DuplicateName` and leaves the store unchanged — so the
/// store only ever keeps the first record made under a name.
pub proof fn lemma_duplicate_creation_refused(c1: DockerWslConf, name: Seq<char>)
    requires
        c1.wsls@.len() >= 1,
        c1.wsls@[0].name@ == name,
    ensures
        has_wsl(c1.wsls@, name),
{
    assert(0 <= 0 < c1.wsls@.len() && c1.wsls@[0].name@ == name);
}

/// Stores a credential for a registry unless one is already held: an
/// existing credential is never overwritten. Returns whether a new
/// credential was added.
pub fn create_private_registry_record(
    conf: &mut DockerWslConf,
    registry_name_str: &str,
    username: &str,
    password: &str,
    tenant: Option<String>,
) -> (added: bool)
    ensures
        added == !has_registry(old(conf).private_registries@, registry_name_str@),
        !added ==> *final(conf) == *old(conf),
        added ==> {
            &&& final(conf).private_registries@.len() == old(conf).private_registries@.len() + 1
            &&& final(conf).private_registries@[0].name@ == registry_name_str@
            &&& final(conf).private_registries@[0].username@ == username@
            &&& final(conf).private_registries@[0].password@ == password@
            &&& final(conf).private_registries@[0].tenant == tenant
            &&& forall|i: int|
                0 <= i < old(conf).private_registries@.len()
                    ==> final(conf).private_registries@[i + 1] == old(conf).private_registries@[i]
            &&& final(conf).wsls == old(conf).wsls
            &&& final(conf).default_base_wsl_install_path
                == old(conf).default_base_wsl_install_path
        },
        has_registry(final(conf).private_registries@, registry_name_str@),
        conf_wf(*old(conf)) ==> conf_wf(*final(conf)),
{
    if find_registry(conf, registry_name_str).is_some() {
        return false;
    }
    let entry = Registry {
        name: String::from_str(registry_name_str),
        username: String::from_str(username),
        password: String::from_str(password),
        tenant,
    };
    conf.private_registries.insert(0, entry);
    true
}

/// `name` appended to `base` as a path component: a separator is added
/// unless `base` already ends with one.
pub open spec fn join_path_spec(base: Seq<char>, name: Seq<char>) -> Seq<char> {
    if ends_with_spec(base, seq!['\\']) || ends_with_spec(base, seq!['/']) {
        base + name
    } else {
        base + seq!['\\'] + name
    }
}

/// Joins an install location and an environment name into one path.
pub fn join_path(base: &str, name: &str) -> (r: String)
    ensures
        r@ == join_path_spec(base@, name@),
{
    proof {
        reveal_strlit("\\");
        reveal_strlit("/");
        assert("\\"@ =~= seq!['\\']);
        assert("/"@ =~= seq!['/']);
    }
    let r = if str_ends_with(base, "\\") || str_ends_with(base, "/") {
        str_concat(base, name)
    } else {
        str_concat3(base, "\\", name)
    };
    proof {
        assert(r@ =~= join_path_spec(base@, name@));
    }
    r
}

/// The install location for a new environment: the explicit flag wins;
/// otherwise the store default joined with the environment name; with
/// neither, the flow cannot proceed.
pub fn determine_base_install_path(
    new_install_location: &Option<String>,
    conf: &DockerWslConf,
    wsl_name_str: &str,
) -> (r: Result<String, DragonError>)
    ensures
        match r {
            Ok(p) => match new_install_location {
                Some(explicit) => p@ == explicit@,
                None => conf.default_base_wsl_install_path matches Some(d) && p@
                    == join_path_spec(d@, wsl_name_str@),
            },
            Err(e) => {
                &&& e == DragonError::NoInstallPath
                &&& new_install_location is None
                &&& conf.default_base_wsl_install_path is None
            },
        },
{
    match new_install_location {
        Some(explicit) => Ok(explicit.clone()),
        None => match &conf.default_base_wsl_install_path {
            Some(d) => Ok(join_path(d.as_str(), wsl_name_str)),
            None => Err(DragonError::NoInstallPath),
        },
    }
}

/// The login an image pull must perform first: present exactly when the
/// reference names a registry for which the store holds a credential.
#[derive(Debug, Clone)]
pub struct LoginAction {
    pub registry: String,
    pub username: String,
    pub password: String,
}

/// `l` is the login taken from the first credential for `name` in `rs`.
pub open spec fn login_matches(rs: Seq<Registry>, name: Seq<char>, l: LoginAction) -> bool {
    exists|i: int|
        0 <= i < rs.len() && rs[i].name@ == name && (forall|j: int|
            0 <= j < i ==> rs[j].name@ != name) && l.registry@ == name && l.username@
            == rs[i].username@ && l.password@ == rs[i].password@
}

/// Decides whether pulling from `registry_name_option` needs a login, and
/// with which stored credential.
pub fn determine_login(
    registry_name_option: &Option<String>,
    conf: &DockerWslConf,
) -> (r: Option<LoginAction>)
    ensures
        match r {
            Some(l) => registry_name_option matches Some(rn) && login_matches(
                conf.private_registries@,
                rn@,
                l,
            ),
            None => match registry_name_option {
                Some(rn) => !has_registry(conf.private_registries@, rn@),
                None => true,
            },
        },
{
    match registry_name_option {
        Some(rn) => match find_registry(conf, rn.as_str()) {
            Some(i) => {
                let reg = &conf.private_registries[i];
                Some(
                    LoginAction {
                        registry: rn.clone(),
                        username: reg.username.clone(),
                        password: reg.password.clone(),
                    },
                )
            },
            None => None,
        },
        None => None,
    }
}

} // verus!
