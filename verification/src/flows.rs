//! The per-command flows, as decisions over the store.
//!
//! Each flow reads the store, applies the selection filter, and produces
//! either an error or a plan: plain values naming exactly the external
//! calls the binary must make, in order. The binary performs the calls and
//! hands results back; everything decided here is verified.

use vstd::prelude::*;
use crate::errors::DragonError;
use crate::refparse::{
    extract_generic_image_details, lemma_parse_tag_appended, opt_view, parse_ref, reassemble_spec,
    update_image_url,
};
use crate::store::{
    create_private_registry_record, determine_login, find_registry, find_wsl, first_registry,
    first_wsl, has_registry, has_wsl, login_matches, DockerWslConf,
    LoginAction, WslConf,
};
use crate::strutil::{contains_char, ends_with_spec, str_concat, str_eq, str_ends_with, substring};
use crate::vm::{find_sep, find_sep_exec, get_wsl_wm_name, vm_identity};
use crate::ids::new_profile_id;

verus! {

/// Does the selection filter keep the record named `name`?
pub open spec fn selected(filter: Option<Seq<char>>, name: Seq<char>) -> bool {
    match filter {
        Some(f) => f == name,
        None => true,
    }
}

/// The records the filter keeps, in store order.
pub open spec fn selected_wsls(ws: Seq<WslConf>, filter: Option<Seq<char>>) -> Seq<WslConf>
    decreases ws.len(),
{
    if ws.len() == 0 {
        Seq::<WslConf>::empty()
    } else {
        let pre = selected_wsls(ws.drop_last(), filter);
        if selected(filter, ws.last().name@) {
            pre.push(ws.last())
        } else {
            pre
        }
    }
}

/// Selection distributes over concatenation of record lists.
pub proof fn lemma_selected_concat(a: Seq<WslConf>, b: Seq<WslConf>, f: Option<Seq<char>>)
    ensures
        selected_wsls(a + b, f) == selected_wsls(a, f) + selected_wsls(b, f),
    decreases b.len(),
{
    if b.len() == 0 {
        assert(a + b =~= a);
        assert(selected_wsls(a, f) + selected_wsls(b, f) =~= selected_wsls(a, f));
    } else {
        lemma_selected_concat(a, b.drop_last(), f);
        assert((a + b).drop_last() =~= a + b.drop_last());
        if selected(f, b.last().name@) {
            assert((selected_wsls(a, f) + selected_wsls(b.drop_last(), f)).push(b.last())
                =~= selected_wsls(a, f) + selected_wsls(b.drop_last(), f).push(b.last()));
        }
    }
}

/// One image pull the binary must perform: the login that must come first,
/// if any, and the reference to pull.
#[derive(Debug, Clone)]
pub struct PullAction {
    pub login: Option<LoginAction>,
    pub image: String,
}

/// The login decision is right for the given registry part: a login with
/// the first stored credential when there is one, none otherwise.
pub open spec fn login_ok(
    regs: Seq<crate::store::Registry>,
    reg: Option<Seq<char>>,
    login: Option<LoginAction>,
) -> bool {
    match login {
        Some(l) => reg matches Some(rn) && login_matches(regs, rn, l),
        None => match reg {
            Some(rn) => !has_registry(regs, rn),
            None => true,
        },
    }
}

/// The pull of one image, with the login its registry part calls for.
pub fn handle_pull_for_image(
    registry_name_option: Option<String>,
    conf: &DockerWslConf,
    image_url_str: &str,
) -> (r: PullAction)
    ensures
        r.image@ == image_url_str@,
        login_ok(conf.private_registries@, opt_view(registry_name_option), r.login),
{
    let login = determine_login(&registry_name_option, conf);
    PullAction { login, image: String::from_str(image_url_str) }
}

/// The pull actions are in bijection with the selected records: same
/// order, same image, and the login decided from that image's registry.
pub open spec fn pull_actions_ok(
    regs: Seq<crate::store::Registry>,
    sel: Seq<WslConf>,
    acts: Seq<PullAction>,
) -> bool {
    &&& acts.len() == sel.len()
    &&& forall|k: int|
        0 <= k < sel.len() ==> {
            &&& (#[trigger] acts[k]).image@ == sel[k].image@
            &&& parse_ref(sel[k].image@) is Some
            &&& login_ok(regs, (parse_ref(sel[k].image@)->0).0, acts[k].login)
        }
}

/// One pull per selected record, each preceded by the login its registry
/// calls for; fails without pulling anything when a selected record's
/// reference is malformed.
pub fn handle_pull(conf: &DockerWslConf, wsl_name: &Option<String>) -> (r: Result<
    Vec<PullAction>,
    DragonError,
>)
    ensures
        ({
            let sel = selected_wsls(conf.wsls@, opt_view(*wsl_name));
            match r {
                Ok(v) => pull_actions_ok(conf.private_registries@, sel, v@),
                Err(e) => e == DragonError::MalformedReference && exists|k: int|
                    0 <= k < sel.len() && parse_ref((#[trigger] sel[k]).image@) is None,
            }
        }),
{
    let ghost f = opt_view(*wsl_name);
    let mut actions: Vec<PullAction> = Vec::new();
    let n = conf.wsls.len();
    let mut i: usize = 0;
    while i < n
        invariant
            n == conf.wsls@.len(),
            i <= n,
            f == opt_view(*wsl_name),
            pull_actions_ok(
                conf.private_registries@,
                selected_wsls(conf.wsls@.subrange(0, i as int), f),
                actions@,
            ),
        decreases n - i,
    {
        let w = &conf.wsls[i];
        let is_selected = match wsl_name {
            Some(name) => str_eq(name.as_str(), w.name.as_str()),
            None => true,
        };
        let ghost prefix = conf.wsls@.subrange(0, i as int);
        let ghost prefix1 = conf.wsls@.subrange(0, i + 1);
        proof {
            assert(prefix1.drop_last() =~= prefix);
            assert(prefix1.last() == conf.wsls@[i as int]);
        }
        if is_selected {
            match extract_generic_image_details(w.image.as_str()) {
                Err(_) => {
                    proof {
                        let sel = selected_wsls(conf.wsls@, f);
                        lemma_selected_concat(prefix1, conf.wsls@.subrange(i + 1, n as int), f);
                        assert(prefix1 + conf.wsls@.subrange(i + 1, n as int) =~= conf.wsls@);
                        let sel1 = selected_wsls(prefix1, f);
                        assert(sel1.last() == conf.wsls@[i as int]);
                        assert(sel[sel1.len() - 1] == conf.wsls@[i as int]);
                    }
                    return Err(DragonError::MalformedReference);
                },
                Ok((registry, _repo, _tag)) => {
                    let act = handle_pull_for_image(registry, conf, w.image.as_str());
                    actions.push(act);
                },
            }
        }
        proof {
            assert(pull_actions_ok(
                conf.private_registries@,
                selected_wsls(prefix1, f),
                actions@,
            ));
        }
        i += 1;
    }
    proof {
        assert(conf.wsls@.subrange(0, n as int) =~= conf.wsls@);
    }
    Ok(actions)
}

/// The registry host suffix the version resolver supports.
pub open spec fn acr_suffix() -> Seq<char> {
    ".azurecr.io"@
}

/// One version query the binary must run: which repository to ask about,
/// and the credential to authenticate the session with.
#[derive(Debug, Clone)]
pub struct TagQuery {
    pub wsl_name: String,
    pub registry: String,
    pub repository: String,
    pub username: String,
    pub password: String,
    pub tenant: String,
}

/// The mathematical content of a `TagQuery`.
pub struct TagQueryModel {
    pub wsl_name: Seq<char>,
    pub registry: Seq<char>,
    pub repository: Seq<char>,
    pub username: Seq<char>,
    pub password: Seq<char>,
    pub tenant: Seq<char>,
}

impl View for TagQuery {
    type V = TagQueryModel;

    open spec fn view(&self) -> TagQueryModel {
        TagQueryModel {
            wsl_name: self.wsl_name@,
            registry: self.registry@,
            repository: self.repository@,
            username: self.username@,
            password: self.password@,
            tenant: self.tenant@,
        }
    }
}

/// The models of a list of queries, in order.
pub open spec fn queries_view(qs: Seq<TagQuery>) -> Seq<TagQueryModel> {
    Seq::new(qs.len(), |i: int| qs[i]@)
}

/// What the update flow decides for one record: a query, nothing (no
/// stored credential), or the error that aborts the flow. Only registries
/// under the supported suffix can be asked; asking needs a tenant.
pub open spec fn update_step(regs: Seq<crate::store::Registry>, w: WslConf) -> Result<
    Option<TagQueryModel>,
    DragonError,
> {
    match parse_ref(w.image@) {
        None => Err(DragonError::MalformedReference),
        Some(parts) => match parts.0 {
            None => Err(DragonError::UnsupportedRegistry),
            Some(rn) => if !ends_with_spec(rn, acr_suffix()) {
                Err(DragonError::UnsupportedRegistry)
            } else {
                let i = first_registry(regs, rn);
                if i == -1 {
                    Ok(None)
                } else {
                    match regs[i].tenant {
                        None => Err(DragonError::AuthenticationFailed),
                        Some(t) => Ok(
                            Some(
                                TagQueryModel {
                                    wsl_name: w.name@,
                                    registry: rn,
                                    repository: parts.1,
                                    username: regs[i].username@,
                                    password: regs[i].password@,
                                    tenant: t@,
                                },
                            ),
                        ),
                    }
                }
            },
        },
    }
}

/// The update flow over a list of selected records: queries in record
/// order, aborted by the first record that steps to an error.
pub open spec fn plan_update_spec(regs: Seq<crate::store::Registry>, sel: Seq<WslConf>) -> Result<
    Seq<TagQueryModel>,
    DragonError,
>
    decreases sel.len(),
{
    if sel.len() == 0 {
        Ok(Seq::<TagQueryModel>::empty())
    } else {
        match plan_update_spec(regs, sel.drop_last()) {
            Err(e) => Err(e),
            Ok(qs) => match update_step(regs, sel.last()) {
                Err(e) => Err(e),
                Ok(None) => Ok(qs),
                Ok(Some(q)) => Ok(qs.push(q)),
            },
        }
    }
}

/// An error among the first records decides the whole flow.
pub proof fn lemma_plan_update_err(
    regs: Seq<crate::store::Registry>,
    s1: Seq<WslConf>,
    s2: Seq<WslConf>,
)
    requires
        plan_update_spec(regs, s1) is Err,
    ensures
        plan_update_spec(regs, s1 + s2) == plan_update_spec(regs, s1),
    decreases s2.len(),
{
    if s2.len() == 0 {
        assert(s1 + s2 =~= s1);
    } else {
        lemma_plan_update_err(regs, s1, s2.drop_last());
        assert((s1 + s2).drop_last() =~= s1 + s2.drop_last());
    }
}

/// The version queries for the selected records, or the error that aborts
/// the flow before any query runs.
pub fn plan_update(conf: &DockerWslConf, wsl_name: &Option<String>) -> (r: Result<
    Vec<TagQuery>,
    DragonError,
>)
    ensures
        ({
            let sel = selected_wsls(conf.wsls@, opt_view(*wsl_name));
            match r {
                Ok(v) => plan_update_spec(conf.private_registries@, sel) == Ok::<
                    Seq<TagQueryModel>,
                    DragonError,
                >(queries_view(v@)),
                Err(e) => plan_update_spec(conf.private_registries@, sel) == Err::<
                    Seq<TagQueryModel>,
                    DragonError,
                >(e),
            }
        }),
{
    let ghost f = opt_view(*wsl_name);
    let ghost regs = conf.private_registries@;
    let mut queries: Vec<TagQuery> = Vec::new();
    let n = conf.wsls.len();
    proof {
        assert(conf.wsls@.subrange(0, 0) =~= Seq::<WslConf>::empty());
        assert(queries_view(queries@) =~= Seq::<TagQueryModel>::empty());
    }
    let mut i: usize = 0;
    while i < n
        invariant
            n == conf.wsls@.len(),
            i <= n,
            f == opt_view(*wsl_name),
            regs == conf.private_registries@,
            plan_update_spec(regs, selected_wsls(conf.wsls@.subrange(0, i as int), f)) == Ok::<
                Seq<TagQueryModel>,
                DragonError,
            >(queries_view(queries@)),
        decreases n - i,
    {
        let w = &conf.wsls[i];
        let is_selected = match wsl_name {
            Some(name) => str_eq(name.as_str(), w.name.as_str()),
            None => true,
        };
        let ghost prefix = conf.wsls@.subrange(0, i as int);
        let ghost prefix1 = conf.wsls@.subrange(0, i + 1);
        proof {
            assert(prefix1.drop_last() =~= prefix);
            assert(prefix1.last() == conf.wsls@[i as int]);
            assert(is_selected == selected(f, conf.wsls@[i as int].name@));
            if selected(f, conf.wsls@[i as int].name@) {
                assert(selected_wsls(prefix1, f) == selected_wsls(prefix, f).push(
                    conf.wsls@[i as int],
                ));
                assert(selected_wsls(prefix1, f).drop_last() =~= selected_wsls(prefix, f));
                assert(selected_wsls(prefix1, f).last() == conf.wsls@[i as int]);
            } else {
                assert(selected_wsls(prefix1, f) == selected_wsls(prefix, f));
            }
        }
        if is_selected {
            let step = update_one(conf, w);
            match step {
                Err(e) => {
                    proof {
                        lemma_selected_concat(prefix1, conf.wsls@.subrange(i + 1, n as int), f);
                        assert(prefix1 + conf.wsls@.subrange(i + 1, n as int) =~= conf.wsls@);
                        lemma_plan_update_err(
                            regs,
                            selected_wsls(prefix1, f),
                            selected_wsls(conf.wsls@.subrange(i + 1, n as int), f),
                        );
                    }
                    return Err(e);
                },
                Ok(None) => {},
                Ok(Some(q)) => {
                    let ghost before = queries@;
                    queries.push(q);
                    proof {
                        assert(queries_view(queries@) =~= queries_view(before).push(q@));
                    }
                },
            }
        }
        proof {
            assert(plan_update_spec(regs, selected_wsls(prefix1, f)) == Ok::<
                Seq<TagQueryModel>,
                DragonError,
            >(queries_view(queries@)));
        }
        i += 1;
    }
    proof {
        assert(conf.wsls@.subrange(0, n as int) =~= conf.wsls@);
    }
    Ok(queries)
}

/// The update decision for one record, as `update_step` states it.
fn update_one(conf: &DockerWslConf, w: &WslConf) -> (r: Result<Option<TagQuery>, DragonError>)
    ensures
        match r {
            Ok(Some(q)) => update_step(conf.private_registries@, *w) == Ok::<
                Option<TagQueryModel>,
                DragonError,
            >(Some(q@)),
            Ok(None) => update_step(conf.private_registries@, *w) == Ok::<
                Option<TagQueryModel>,
                DragonError,
            >(None),
            Err(e) => update_step(conf.private_registries@, *w) == Err::<
                Option<TagQueryModel>,
                DragonError,
            >(e),
        },
{
    match extract_generic_image_details(w.image.as_str()) {
        Err(e) => Err(e),
        Ok((registry, repository, _tag)) => match registry {
            None => Err(DragonError::UnsupportedRegistry),
            Some(rn) => {
                if !str_ends_with(rn.as_str(), ".azurecr.io") {
                    return Err(DragonError::UnsupportedRegistry);
                }
                match find_registry(conf, rn.as_str()) {
                    None => Ok(None),
                    Some(idx) => {
                        let cred = &conf.private_registries[idx];
                        match &cred.tenant {
                            None => Err(DragonError::AuthenticationFailed),
                            Some(t) => Ok(
                                Some(
                                    TagQuery {
                                        wsl_name: w.name.clone(),
                                        registry: rn,
                                        repository,
                                        username: cred.username.clone(),
                                        password: cred.password.clone(),
                                        tenant: t.clone(),
                                    },
                                ),
                            ),
                        }
                    },
                }
            },
        },
    }
}

/// Records the freshly resolved tag on the named record; a name with no
/// record changes nothing.
pub fn apply_latest_tag(conf: &mut DockerWslConf, wsl_name: &str, latest_tag: &str) -> (r: bool)
    ensures
        ({
            let i = first_wsl(old(conf).wsls@, wsl_name@);
            if i == -1 {
                !r && *final(conf) == *old(conf)
            } else {
                &&& r
                &&& final(conf).wsls@.len() == old(conf).wsls@.len()
                &&& final(conf).wsls@[i].latest matches Some(l) && l@ == latest_tag@
                &&& final(conf).wsls@[i].name == old(conf).wsls@[i].name
                &&& final(conf).wsls@[i].image == old(conf).wsls@[i].image
                &&& final(conf).wsls@[i].windows_terminal_profile_id == old(conf).wsls@[i].windows_terminal_profile_id
                &&& final(conf).wsls@[i].base_install_path == old(conf).wsls@[i].base_install_path
                &&& forall|j: int|
                    0 <= j < old(conf).wsls@.len() && j != i ==> final(conf).wsls@[j] == old(
                        conf,
                    ).wsls@[j]
                &&& final(conf).default_base_wsl_install_path == old(
                    conf,
                ).default_base_wsl_install_path
                &&& final(conf).private_registries == old(conf).private_registries
                &&& crate::store::conf_wf(*old(conf)) ==> crate::store::conf_wf(*final(conf))
            }
        }),
{
    match find_wsl(conf, wsl_name) {
        None => false,
        Some(i) => {
            let ghost before = conf.wsls@;
            let mut rec = conf.wsls.remove(i);
            rec.latest = Some(String::from_str(latest_tag));
            conf.wsls.insert(i, rec);
            proof {
                assert(forall|j: int|
                    0 <= j < before.len() && j != i ==> final(conf).wsls@[j] == before[j]);
            }
            true
        },
    }
}

/// The registry's answer to a version query: the first quoted string on
/// its output stream, which must be non-empty.
pub open spec fn extract_tag_spec(s: Seq<char>) -> Option<Seq<char>> {
    let i = find_sep(s, seq!['"']);
    if i == -1 {
        None
    } else {
        let rest = s.subrange(i + 1, s.len() as int);
        let j = find_sep(rest, seq!['"']);
        if j <= 0 {
            None
        } else {
            Some(rest.subrange(0, j))
        }
    }
}

/// Reads the resolved tag out of the version query's output.
pub fn extract_tag_from_output(raw: &str) -> (r: Result<String, DragonError>)
    ensures
        match r {
            Ok(t) => extract_tag_spec(raw@) == Some(t@),
            Err(e) => e == DragonError::TagResolutionFailed && extract_tag_spec(raw@) is None,
        },
{
    let q = "\"";
    proof {
        reveal_strlit("\"");
        assert(q@ =~= seq!['"']);
    }
    let len = raw.unicode_len();
    match find_sep_exec(raw, q) {
        None => Err(DragonError::TagResolutionFailed),
        Some(i) => {
            proof {
                crate::vm::lemma_find_sep_props(raw@, q@);
            }
            let rest = substring(raw, i + 1, len);
            let rest_len = rest.as_str().unicode_len();
            match find_sep_exec(rest.as_str(), q) {
                None => Err(DragonError::TagResolutionFailed),
                Some(j) => {
                    if j == 0 {
                        return Err(DragonError::TagResolutionFailed);
                    }
                    proof {
                        crate::vm::lemma_find_sep_props(rest@, q@);
                    }
                    Ok(substring(rest.as_str(), 0, j))
                },
            }
        },
    }
}

/// Asking the update flow about a selected record that does not point at
/// a supported registry fails with `UnsupportedRegistry` before any query
/// is planned.
pub proof fn lemma_update_unsupported_registry(
    regs: Seq<crate::store::Registry>,
    ws: Seq<WslConf>,
    f: Option<Seq<char>>,
    w: WslConf,
)
    requires
        selected_wsls(ws, f) == seq![w],
        parse_ref(w.image@) is Some,
        match (parse_ref(w.image@)->0).0 {
            Some(rn) => !ends_with_spec(rn, acr_suffix()),
            None => true,
        },
    ensures
        plan_update_spec(regs, selected_wsls(ws, f)) == Err::<Seq<TagQueryModel>, DragonError>(
            DragonError::UnsupportedRegistry,
        ),
{
    let sel = selected_wsls(ws, f);
    assert(sel.drop_last() =~= Seq::<WslConf>::empty());
    assert(sel.last() == w);
    assert(plan_update_spec(regs, sel.drop_last()) == Ok::<Seq<TagQueryModel>, DragonError>(
        Seq::<TagQueryModel>::empty(),
    ));
    assert(update_step(regs, w) == Err::<Option<TagQueryModel>, DragonError>(
        DragonError::UnsupportedRegistry,
    ));
}

/// One re-provisioning the binary must perform: tear down and re-import
/// the instance under its new identity, re-ensure the terminal profile,
/// and pull through the new reference.
#[derive(Debug, Clone)]
pub struct UpgradeAction {
    pub wsl_name: String,
    pub wsl_vm_name: String,
    pub image_url: String,
    pub base_install_path: String,
    pub wt_profile_id: String,
}

/// The mathematical content of an `UpgradeAction`.
pub struct UpgradeActionModel {
    pub wsl_name: Seq<char>,
    pub wsl_vm_name: Seq<char>,
    pub image_url: Seq<char>,
    pub base_install_path: Seq<char>,
    pub wt_profile_id: Seq<char>,
}

impl View for UpgradeAction {
    type V = UpgradeActionModel;

    open spec fn view(&self) -> UpgradeActionModel {
        UpgradeActionModel {
            wsl_name: self.wsl_name@,
            wsl_vm_name: self.wsl_vm_name@,
            image_url: self.image_url@,
            base_install_path: self.base_install_path@,
            wt_profile_id: self.wt_profile_id@,
        }
    }
}

/// The models of a list of upgrade actions, in order.
pub open spec fn upgrade_actions_view(v: Seq<UpgradeAction>) -> Seq<UpgradeActionModel> {
    Seq::new(v.len(), |i: int| v[i]@)
}

/// What the upgrade flow decides for one record: re-provision under the
/// identity the resolved version names, or the error that aborts the
/// flow. A record with no resolved version cannot be upgraded.
pub open spec fn upgrade_step(w: WslConf) -> Result<UpgradeActionModel, DragonError> {
    match parse_ref(w.image@) {
        None => Err(DragonError::MalformedReference),
        Some(parts) => match w.latest {
            None => Err(DragonError::NoResolvedVersion),
            Some(l) => Ok(
                UpgradeActionModel {
                    wsl_name: w.name@,
                    wsl_vm_name: vm_identity(w.name@, l@),
                    image_url: reassemble_spec(parts.0, parts.1, Some(l@)),
                    base_install_path: w.base_install_path@,
                    wt_profile_id: w.windows_terminal_profile_id@,
                },
            ),
        },
    }
}

/// The upgrade flow over a list of selected records: one action per
/// record, in order, aborted by the first record that steps to an error.
pub open spec fn plan_upgrade_spec(sel: Seq<WslConf>) -> Result<
    Seq<UpgradeActionModel>,
    DragonError,
>
    decreases sel.len(),
{
    if sel.len() == 0 {
        Ok(Seq::<UpgradeActionModel>::empty())
    } else {
        match plan_upgrade_spec(sel.drop_last()) {
            Err(e) => Err(e),
            Ok(acts) => match upgrade_step(sel.last()) {
                Err(e) => Err(e),
                Ok(a) => Ok(acts.push(a)),
            },
        }
    }
}

/// An error among the first records decides the whole upgrade flow.
pub proof fn lemma_plan_upgrade_err(s1: Seq<WslConf>, s2: Seq<WslConf>)
    requires
        plan_upgrade_spec(s1) is Err,
    ensures
        plan_upgrade_spec(s1 + s2) == plan_upgrade_spec(s1),
    decreases s2.len(),
{
    if s2.len() == 0 {
        assert(s1 + s2 =~= s1);
    } else {
        lemma_plan_upgrade_err(s1, s2.drop_last());
        assert((s1 + s2).drop_last() =~= s1 + s2.drop_last());
    }
}

/// The upgrade decision for one record, as `upgrade_step` states it.
fn upgrade_one(w: &WslConf) -> (r: Result<UpgradeAction, DragonError>)
    ensures
        match r {
            Ok(a) => upgrade_step(*w) == Ok::<UpgradeActionModel, DragonError>(a@),
            Err(e) => upgrade_step(*w) == Err::<UpgradeActionModel, DragonError>(e),
        },
{
    match extract_generic_image_details(w.image.as_str()) {
        Err(e) => Err(e),
        Ok((registry, repository, _tag)) => match &w.latest {
            None => Err(DragonError::NoResolvedVersion),
            Some(l) => {
                let new_url = match update_image_url(registry, &repository, l.as_str()) {
                    Ok(u) => u,
                    Err(_) => {
                        proof {
                            assert(false);
                        }
                        return Err(DragonError::MalformedReference);
                    },
                };
                let vm_name = match get_wsl_wm_name(w.name.as_str(), l.as_str()) {
                    Ok(v) => v,
                    Err(_) => {
                        proof {
                            assert(false);
                        }
                        return Err(DragonError::MalformedReference);
                    },
                };
                Ok(
                    UpgradeAction {
                        wsl_name: w.name.clone(),
                        wsl_vm_name: vm_name,
                        image_url: new_url,
                        base_install_path: w.base_install_path.clone(),
                        wt_profile_id: w.windows_terminal_profile_id.clone(),
                    },
                )
            },
        },
    }
}

/// The re-provisioning actions for the selected records, with the store's
/// image references rewritten to carry the resolved versions; an error
/// leaves the store untouched.
pub fn plan_upgrade(conf: &mut DockerWslConf, wsl_name: &Option<String>) -> (r: Result<
    Vec<UpgradeAction>,
    DragonError,
>)
    ensures
        ({
            let f = opt_view(*wsl_name);
            let sel = selected_wsls(old(conf).wsls@, f);
            match r {
                Ok(v) => {
                    &&& plan_upgrade_spec(sel) == Ok::<Seq<UpgradeActionModel>, DragonError>(
                        upgrade_actions_view(v@),
                    )
                    &&& final(conf).wsls@.len() == old(conf).wsls@.len()
                    &&& forall|k: int|
                        0 <= k < old(conf).wsls@.len() ==> {
                            if selected(f, (#[trigger] old(conf).wsls@[k]).name@) {
                                &&& upgrade_step(old(conf).wsls@[k]) matches Ok(m)
                                    && final(conf).wsls@[k].image@ == m.image_url
                                &&& final(conf).wsls@[k].name == old(conf).wsls@[k].name
                                &&& final(conf).wsls@[k].latest == old(conf).wsls@[k].latest
                                &&& final(conf).wsls@[k].windows_terminal_profile_id == old(
                                    conf,
                                ).wsls@[k].windows_terminal_profile_id
                                &&& final(conf).wsls@[k].base_install_path == old(
                                    conf,
                                ).wsls@[k].base_install_path
                            } else {
                                final(conf).wsls@[k] == old(conf).wsls@[k]
                            }
                        }
                    &&& final(conf).default_base_wsl_install_path == old(
                        conf,
                    ).default_base_wsl_install_path
                    &&& final(conf).private_registries == old(conf).private_registries
                    &&& crate::store::conf_wf(*old(conf)) ==> crate::store::conf_wf(*final(conf))
                },
                Err(e) => plan_upgrade_spec(sel) == Err::<Seq<UpgradeActionModel>, DragonError>(e)
                    && *final(conf) == *old(conf),
            }
        }),
{
    let ghost f = opt_view(*wsl_name);
    let ghost ws0 = conf.wsls@;
    let mut actions: Vec<UpgradeAction> = Vec::new();
    let mut repl: Vec<Option<String>> = Vec::new();
    let n = conf.wsls.len();
    proof {
        assert(conf.wsls@.subrange(0, 0) =~= Seq::<WslConf>::empty());
        assert(upgrade_actions_view(actions@) =~= Seq::<UpgradeActionModel>::empty());
    }
    let mut i: usize = 0;
    while i < n
        invariant
            n == conf.wsls@.len(),
            conf.wsls@ == ws0,
            *conf == *old(conf),
            i <= n,
            f == opt_view(*wsl_name),
            repl@.len() == i,
            plan_upgrade_spec(selected_wsls(ws0.subrange(0, i as int), f)) == Ok::<
                Seq<UpgradeActionModel>,
                DragonError,
            >(upgrade_actions_view(actions@)),
            forall|k: int|
                0 <= k < i ==> ((#[trigger] repl@[k]) is Some) == selected(f, ws0[k].name@),
            forall|k: int|
                0 <= k < i ==> ((#[trigger] repl@[k]) matches Some(u) ==> (upgrade_step(ws0[k])
                    matches Ok(m) && u@ == m.image_url)),
        decreases n - i,
    {
        let w = &conf.wsls[i];
        let is_selected = match wsl_name {
            Some(name) => str_eq(name.as_str(), w.name.as_str()),
            None => true,
        };
        let ghost prefix = ws0.subrange(0, i as int);
        let ghost prefix1 = ws0.subrange(0, i + 1);
        proof {
            assert(prefix1.drop_last() =~= prefix);
            assert(prefix1.last() == ws0[i as int]);
            assert(is_selected == selected(f, ws0[i as int].name@));
            if selected(f, ws0[i as int].name@) {
                assert(selected_wsls(prefix1, f) == selected_wsls(prefix, f).push(ws0[i as int]));
                assert(selected_wsls(prefix1, f).drop_last() =~= selected_wsls(prefix, f));
                assert(selected_wsls(prefix1, f).last() == ws0[i as int]);
            } else {
                assert(selected_wsls(prefix1, f) == selected_wsls(prefix, f));
            }
        }
        if is_selected {
            match upgrade_one(w) {
                Err(e) => {
                    proof {
                        lemma_selected_concat(prefix1, ws0.subrange(i + 1, n as int), f);
                        assert(prefix1 + ws0.subrange(i + 1, n as int) =~= ws0);
                        lemma_plan_upgrade_err(
                            selected_wsls(prefix1, f),
                            selected_wsls(ws0.subrange(i + 1, n as int), f),
                        );
                    }
                    return Err(e);
                },
                Ok(a) => {
                    let ghost before = actions@;
                    let u = a.image_url.clone();
                    actions.push(a);
                    repl.push(Some(u));
                    proof {
                        assert(upgrade_actions_view(actions@) =~= upgrade_actions_view(
                            before,
                        ).push(actions@.last()@));
                    }
                },
            }
        } else {
            repl.push(None);
        }
        proof {
            assert(plan_upgrade_spec(selected_wsls(prefix1, f)) == Ok::<
                Seq<UpgradeActionModel>,
                DragonError,
            >(upgrade_actions_view(actions@)));
        }
        i += 1;
    }
    proof {
        assert(ws0.subrange(0, n as int) =~= ws0);
    }
    // No record can fail any more: rewrite the image references in place.
    let mut new_wsls: Vec<WslConf> = Vec::new();
    let mut k: usize = 0;
    while k < n
        invariant
            n == ws0.len(),
            k <= n,
            conf.wsls@ == ws0.subrange(k as int, n as int),
            conf.default_base_wsl_install_path == old(conf).default_base_wsl_install_path,
            conf.private_registries == old(conf).private_registries,
            repl@.len() == n - k,
            forall|j: int|
                0 <= j < n - k ==> ((#[trigger] repl@[j]) is Some) == selected(
                    f,
                    ws0[j + k].name@,
                ),
            forall|j: int|
                0 <= j < n - k ==> ((#[trigger] repl@[j]) matches Some(u) ==> (upgrade_step(
                    ws0[j + k],
                ) matches Ok(m) && u@ == m.image_url)),
            new_wsls@.len() == k,
            forall|j: int|
                0 <= j < k ==> {
                    if selected(f, (#[trigger] ws0[j]).name@) {
                        &&& upgrade_step(ws0[j]) matches Ok(m) && new_wsls@[j].image@
                            == m.image_url
                        &&& new_wsls@[j].name == ws0[j].name
                        &&& new_wsls@[j].latest == ws0[j].latest
                        &&& new_wsls@[j].windows_terminal_profile_id
                            == ws0[j].windows_terminal_profile_id
                        &&& new_wsls@[j].base_install_path == ws0[j].base_install_path
                    } else {
                        new_wsls@[j] == ws0[j]
                    }
                },
        decreases n - k,
    {
        let mut w = conf.wsls.remove(0);
        let r0 = repl.remove(0);
        proof {
            assert(conf.wsls@ =~= ws0.subrange(k + 1, n as int));
        }
        match r0 {
            Some(u) => {
                w.image = u;
            },
            None => {},
        }
        new_wsls.push(w);
        k += 1;
    }
    conf.wsls = new_wsls;
    proof {
        assert(forall|j: int|
            0 <= j < ws0.len() ==> (#[trigger] conf.wsls@[j]).name@ == ws0[j].name@);
    }
    Ok(actions)
}

/// A copy of an optional owned string.
fn clone_opt(o: &Option<String>) -> (r: Option<String>)
    ensures
        opt_view(r) == opt_view(*o),
{
    match o {
        Some(s) => Some(s.clone()),
        None => None,
    }
}

/// The name a new environment goes under: the explicit flag, or the
/// repository part of its reference.
pub open spec fn chosen_name(name_flag: Option<String>, repo: Seq<char>) -> Seq<char> {
    match name_flag {
        Some(n) => n@,
        None => repo,
    }
}

/// The store after the credential for `name` was declared: an existing
/// credential wins; otherwise the new one is prepended and nothing else
/// moves.
pub open spec fn registry_upserted(
    oldc: DockerWslConf,
    newc: DockerWslConf,
    name: Seq<char>,
    user: Seq<char>,
    pass: Seq<char>,
    ten: Option<Seq<char>>,
) -> bool {
    if has_registry(oldc.private_registries@, name) {
        newc == oldc
    } else {
        &&& newc.private_registries@.len() == oldc.private_registries@.len() + 1
        &&& newc.private_registries@[0].name@ == name
        &&& newc.private_registries@[0].username@ == user
        &&& newc.private_registries@[0].password@ == pass
        &&& opt_view(newc.private_registries@[0].tenant) == ten
        &&& forall|i: int|
            0 <= i < oldc.private_registries@.len() ==> newc.private_registries@[i + 1]
                == oldc.private_registries@[i]
        &&& newc.wsls == oldc.wsls
        &&& newc.default_base_wsl_install_path == oldc.default_base_wsl_install_path
    }
}

/// Everything the binary needs to create a new environment: the
/// normalized reference to pull, the chosen name and tag, the instance
/// identity, the freshly allocated terminal profile id, and the login the
/// pull calls for. Declares the registry credential on the store when one
/// was given; the store is otherwise untouched, and is left alone
/// entirely when the name is taken or the reference malformed.
#[derive(Debug, Clone)]
pub struct NewPlan {
    pub image_url: String,
    pub wsl_name: String,
    pub tag: String,
    pub wsl_vm_name: String,
    pub wt_profile_id: String,
    pub login: Option<LoginAction>,
    pub credential_added: bool,
}

/// The decisions of the creation flow, in its order: resolve the
/// reference, validate the name, declare the credential, decide the
/// login, normalize the reference to carry an explicit tag, and compose
/// the instance identity.
pub fn plan_new(
    conf: &mut DockerWslConf,
    image: &str,
    name: &Option<String>,
    username: &Option<String>,
    password: &Option<String>,
    tenant: &Option<String>,
) -> (r: Result<NewPlan, DragonError>)
    ensures
        ({
            match parse_ref(image@) {
                None => (r matches Err(e) && e == DragonError::MalformedReference && *final(conf)
                    == *old(conf)),
                Some(parts) => {
                    let cn = chosen_name(*name, parts.1);
                    if has_wsl(old(conf).wsls@, cn) {
                        r matches Err(e) && e == DragonError::DuplicateName && *final(conf)
                            == *old(conf)
                    } else {
                        r matches Ok(p) && {
                            &&& p.wsl_name@ == cn
                            &&& !has_wsl(old(conf).wsls@, p.wsl_name@)
                            &&& p.image_url@ == (if parts.2 is None {
                                image@ + seq![':'] + "latest"@
                            } else {
                                image@
                            })
                            &&& p.tag@ == (match parts.2 {
                                Some(t) => t,
                                None => "latest"@,
                            })
                            &&& p.wsl_vm_name@ == vm_identity(cn, p.tag@)
                            &&& p.wt_profile_id@.len() == 36
                            &&& (match (parts.0, *username, *password) {
                                (Some(rn), Some(u), Some(pw)) => {
                                    &&& p.credential_added == !has_registry(
                                        old(conf).private_registries@,
                                        rn,
                                    )
                                    &&& registry_upserted(
                                        *old(conf),
                                        *final(conf),
                                        rn,
                                        u@,
                                        pw@,
                                        opt_view(*tenant),
                                    )
                                },
                                _ => *final(conf) == *old(conf) && !p.credential_added,
                            })
                            &&& login_ok(final(conf).private_registries@, parts.0, p.login)
                            &&& (crate::store::conf_wf(*old(conf)) ==> crate::store::conf_wf(
                                *final(conf),
                            ))
                        }
                    }
                },
            }
        }),
{
    let (registry, repository, tag_opt) = match extract_generic_image_details(image) {
        Err(e) => {
            return Err(e);
        },
        Ok(p) => p,
    };
    let wsl_name: String = match name {
        Some(n) => n.clone(),
        None => repository.clone(),
    };
    if find_wsl(conf, wsl_name.as_str()).is_some() {
        return Err(DragonError::DuplicateName);
    }
    let wt_profile_id = new_profile_id();
    let mut credential_added = false;
    if let Some(rn) = &registry {
        match (username, password) {
            (Some(u), Some(pw)) => {
                credential_added = create_private_registry_record(
                    conf,
                    rn.as_str(),
                    u.as_str(),
                    pw.as_str(),
                    clone_opt(tenant),
                );
            },
            _ => {},
        }
    }
    let login = determine_login(&registry, conf);
    let (image_url, tag): (String, String) = match &tag_opt {
        Some(t) => (String::from_str(image), t.clone()),
        None => (str_concat(image, ":latest"), String::from_str("latest")),
    };
    proof {
        if tag_opt is None {
            reveal_strlit(":latest");
            reveal_strlit("latest");
            assert(":latest"@ =~= seq![':'] + "latest"@);
            assert(image_url@ =~= image@ + seq![':'] + "latest"@);
        }
    }
    let wsl_vm_name = match get_wsl_wm_name(wsl_name.as_str(), tag.as_str()) {
        Ok(v) => v,
        Err(_) => {
            proof {
                assert(false);
            }
            return Err(DragonError::MalformedReference);
        },
    };
    Ok(
        NewPlan {
            image_url,
            wsl_name,
            tag,
            wsl_vm_name,
            wt_profile_id,
            login,
            credential_added,
        },
    )
}

/// Creating an environment and then running it by name starts exactly the
/// instance the creation provisioned: the identity recomputed by the run
/// flow from the stored, normalized reference is the one composed at
/// creation from the chosen name and the (defaulted) tag.
pub proof fn lemma_new_then_run(
    image: Seq<char>,
    reg: Option<Seq<char>>,
    repo: Seq<char>,
    tag_opt: Option<Seq<char>>,
    n: Seq<char>,
    stored: Seq<char>,
    tag: Seq<char>,
    c2: DockerWslConf,
)
    requires
        parse_ref(image) == Some((reg, repo, tag_opt)),
        stored == (if tag_opt is None {
            image + seq![':'] + "latest"@
        } else {
            image
        }),
        tag == (match tag_opt {
            Some(t) => t,
            None => "latest"@,
        }),
        c2.wsls@.len() >= 1,
        c2.wsls@[0].name@ == n,
        c2.wsls@[0].image@ == stored,
    ensures
        run_spec(c2, n) == Ok::<Seq<char>, DragonError>(vm_identity(n, tag)),
{
    assert(first_wsl(c2.wsls@, n) == 0);
    match tag_opt {
        Some(t) => {},
        None => {
            reveal_strlit("latest");
            assert("latest"@.len() == 6);
            assert(!contains_char("latest"@, '/')) by {
                if contains_char("latest"@, '/') {
                    let i = choose|i: int|
                        0 <= i < "latest"@.len() && "latest"@[i] == '/';
                    assert(false);
                }
            }
            assert(!contains_char("latest"@, ':')) by {
                if contains_char("latest"@, ':') {
                    let i = choose|i: int|
                        0 <= i < "latest"@.len() && "latest"@[i] == ':';
                    assert(false);
                }
            }
            lemma_parse_tag_appended(image, reg, repo, "latest"@);
        },
    }
}

/// What running a named environment comes to: the identity of the VM
/// instance the runtime must start, or why none can be named.
pub open spec fn run_spec(c: DockerWslConf, name: Seq<char>) -> Result<Seq<char>, DragonError> {
    let i = first_wsl(c.wsls@, name);
    if i == -1 {
        Err(DragonError::InstanceNotFound)
    } else {
        match parse_ref(c.wsls@[i].image@) {
            None => Err(DragonError::MalformedReference),
            Some(parts) => match parts.2 {
                None => Err(DragonError::MalformedReference),
                Some(t) => Ok(vm_identity(name, t)),
            },
        }
    }
}

/// Resolves the one record the mandatory name picks and recomputes the
/// instance identity from its current tag.
pub fn plan_run(conf: &DockerWslConf, wsl_name: &str) -> (r: Result<String, DragonError>)
    ensures
        match r {
            Ok(n) => run_spec(*conf, wsl_name@) == Ok::<Seq<char>, DragonError>(n@),
            Err(e) => run_spec(*conf, wsl_name@) == Err::<Seq<char>, DragonError>(e),
        },
{
    let idx = match find_wsl(conf, wsl_name) {
        None => {
            return Err(DragonError::InstanceNotFound);
        },
        Some(idx) => idx,
    };
    let w = &conf.wsls[idx];
    match extract_generic_image_details(w.image.as_str()) {
        Err(e) => Err(e),
        Ok((_registry, _repo, tag)) => match tag {
            None => Err(DragonError::MalformedReference),
            Some(t) => match get_wsl_wm_name(wsl_name, t.as_str()) {
                Ok(n) => Ok(n),
                Err(e) => Err(e),
            },
        },
    }
}

} // verus!
