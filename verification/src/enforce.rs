//! Enforcement: which rights a policy grants, and where.

use vstd::prelude::*;

use crate::path;
use crate::text;

verus! {

/// What a command may do while it is enforced.
///
/// The four lists of paths are one domain, and each of the two lists of ports is one.
/// A domain without an entry is not restricted.
#[derive(Debug)]
pub struct EnforcePolicy {
    /// Broad filesystem mutation permission.
    /// Includes modify, create, remove, link, rename/refer, and truncate.
    pub write: Vec<String>,
    /// Narrow permission for modifying existing regular files only.
    /// Does not allow creating or deleting filesystem entries.
    pub modify: Vec<String>,
    /// Permission to create filesystem entries beneath a directory.
    pub create: Vec<String>,
    /// Permission to remove filesystem entries beneath a directory.
    pub remove: Vec<String>,
    /// Allowed TCP destination ports.
    /// Empty means that TCP connect is not restricted.
    pub connect_tcp: Vec<u16>,
    /// Allowed local TCP bind ports.
    /// Empty means that TCP bind is not restricted.
    pub bind_tcp: Vec<u16>,
}

impl EnforcePolicy {
    /// The policy has no entry.
    pub open spec fn is_empty(self) -> bool {
        &&& self.write@.len() == 0
        &&& self.modify@.len() == 0
        &&& self.create@.len() == 0
        &&& self.remove@.len() == 0
        &&& self.connect_tcp@.len() == 0
        &&& self.bind_tcp@.len() == 0
    }
}

impl Clone for EnforcePolicy {
    fn clone(&self) -> (r: Self)
        ensures
            text::strings(r.write@) == text::strings(self.write@),
            text::strings(r.modify@) == text::strings(self.modify@),
            text::strings(r.create@) == text::strings(self.create@),
            text::strings(r.remove@) == text::strings(self.remove@),
            r.connect_tcp@ == self.connect_tcp@,
            r.bind_tcp@ == self.bind_tcp@,
    {
        EnforcePolicy {
            write: text::copied(&self.write),
            modify: text::copied(&self.modify),
            create: text::copied(&self.create),
            remove: text::copied(&self.remove),
            connect_tcp: self.connect_tcp.clone(),
            bind_tcp: self.bind_tcp.clone(),
        }
    }
}

impl Default for EnforcePolicy {
    fn default() -> (r: Self)
        ensures
            r.is_empty(),
    {
        EnforcePolicy {
            write: Vec::new(),
            modify: Vec::new(),
            create: Vec::new(),
            remove: Vec::new(),
            connect_tcp: Vec::new(),
            bind_tcp: Vec::new(),
        }
    }
}

/// Why a policy cannot be enforced.
#[derive(Debug, Clone, Copy, PartialEq, Eq, Structural)]
pub enum EnforceError {
    /// A `*` stands where it is not part of a final `/**`.
    Wildcard,
    /// `$HOME` is used and there is no home directory.
    MissingHome,
    /// The path starts with a variable that is not known.
    UnknownVariable,
    /// The path is written as one of the project and lies outside of it.
    EscapesProject,
    /// The path ends in `/**` and is no directory.
    NotADirectory,
    /// The path is a directory and does not end in `/**`.
    DirectoryWithoutScope,
    /// A path for creation does not end in `/**`.
    CreateNeedsScope,
    /// A path for removal does not end in `/**`.
    RemoveNeedsScope,
    /// The restriction did not become fully active.
    NotActive,
}

// ---------------------------------------------------------------------------
// Rights
// ---------------------------------------------------------------------------

/// A right to change the filesystem.
#[derive(Debug, Clone, Copy, PartialEq, Eq, Structural)]
pub enum FsAccess {
    WriteFile,
    RemoveDir,
    RemoveFile,
    MakeChar,
    MakeDir,
    MakeReg,
    MakeSock,
    MakeFifo,
    MakeBlock,
    MakeSym,
    Refer,
    Truncate,
}

/// A right to change the contents of a file.
pub open spec fn changes_contents(a: FsAccess) -> bool {
    a is WriteFile || a is Truncate
}

/// A right to create an entry.
pub open spec fn creates_entries(a: FsAccess) -> bool {
    a is MakeChar || a is MakeDir || a is MakeReg || a is MakeSock || a is MakeFifo
        || a is MakeBlock || a is MakeSym
}

/// A right to remove an entry.
pub open spec fn removes_entries(a: FsAccess) -> bool {
    a is RemoveDir || a is RemoveFile
}

/// Every right to change the filesystem, each of them once.
pub fn write_access() -> (r: Vec<FsAccess>)
    ensures
        forall|a: FsAccess| #[trigger] r@.contains(a),
        r@.no_duplicates(),
{
    let r = vec![
        FsAccess::WriteFile,
        FsAccess::RemoveDir,
        FsAccess::RemoveFile,
        FsAccess::MakeChar,
        FsAccess::MakeDir,
        FsAccess::MakeReg,
        FsAccess::MakeSock,
        FsAccess::MakeFifo,
        FsAccess::MakeBlock,
        FsAccess::MakeSym,
        FsAccess::Refer,
        FsAccess::Truncate,
    ];
    assert forall|a: FsAccess| #[trigger] r@.contains(a) by {
        let at: int = match a {
            FsAccess::WriteFile => 0,
            FsAccess::RemoveDir => 1,
            FsAccess::RemoveFile => 2,
            FsAccess::MakeChar => 3,
            FsAccess::MakeDir => 4,
            FsAccess::MakeReg => 5,
            FsAccess::MakeSock => 6,
            FsAccess::MakeFifo => 7,
            FsAccess::MakeBlock => 8,
            FsAccess::MakeSym => 9,
            FsAccess::Refer => 10,
            FsAccess::Truncate => 11,
        };
        assert(r@[at] == a);
    }
    r
}

/// The rights to change the contents of files, each of them once.
pub fn file_write_access() -> (r: Vec<FsAccess>)
    ensures
        forall|a: FsAccess| #[trigger] r@.contains(a) <==> changes_contents(a),
        r@.no_duplicates(),
{
    let r = vec![FsAccess::WriteFile, FsAccess::Truncate];
    assert(r@[0] == FsAccess::WriteFile && r@[1] == FsAccess::Truncate);
    r
}

/// The rights to create entries, each of them once.
pub fn create_access() -> (r: Vec<FsAccess>)
    ensures
        forall|a: FsAccess| #[trigger] r@.contains(a) <==> creates_entries(a),
        r@.no_duplicates(),
{
    let r = vec![
        FsAccess::MakeChar,
        FsAccess::MakeDir,
        FsAccess::MakeReg,
        FsAccess::MakeSock,
        FsAccess::MakeFifo,
        FsAccess::MakeBlock,
        FsAccess::MakeSym,
    ];
    assert forall|a: FsAccess| creates_entries(a) implies #[trigger] r@.contains(a) by {
        let at: int = match a {
            FsAccess::MakeChar => 0,
            FsAccess::MakeDir => 1,
            FsAccess::MakeReg => 2,
            FsAccess::MakeSock => 3,
            FsAccess::MakeFifo => 4,
            FsAccess::MakeBlock => 5,
            _ => 6,
        };
        assert(r@[at] == a);
    }
    r
}

/// The rights to remove entries, each of them once.
pub fn remove_access() -> (r: Vec<FsAccess>)
    ensures
        forall|a: FsAccess| #[trigger] r@.contains(a) <==> removes_entries(a),
        r@.no_duplicates(),
{
    let r = vec![FsAccess::RemoveDir, FsAccess::RemoveFile];
    assert(r@[0] == FsAccess::RemoveDir && r@[1] == FsAccess::RemoveFile);
    r
}

// ---------------------------------------------------------------------------
// Rules
// ---------------------------------------------------------------------------

/// The list of a policy that a path comes from.
#[derive(Debug, Clone, Copy, PartialEq, Eq, Structural)]
pub enum RuleKind {
    Write,
    Modify,
    Create,
    Remove,
}

/// A path of the given kind grants the right.
pub open spec fn grants(kind: RuleKind, recursive: bool, a: FsAccess) -> bool {
    match kind {
        RuleKind::Write => recursive || changes_contents(a),
        RuleKind::Modify => changes_contents(a),
        RuleKind::Create => creates_entries(a),
        RuleKind::Remove => removes_entries(a),
    }
}

/// The rights that a path of the given kind grants.
pub fn rule_access(kind: RuleKind, recursive: bool) -> (r: Result<Vec<FsAccess>, EnforceError>)
    ensures
        match r {
            Ok(access) => {
                &&& (kind is Create || kind is Remove) ==> recursive
                &&& forall|a: FsAccess| #[trigger] access@.contains(a) <==> grants(kind, recursive, a)
                &&& access@.no_duplicates()
            },
            Err(e) => !recursive && match kind {
                RuleKind::Create => e == EnforceError::CreateNeedsScope,
                RuleKind::Remove => e == EnforceError::RemoveNeedsScope,
                _ => false,
            },
        },
{
    match kind {
        RuleKind::Write => Ok(
            if recursive {
                write_access()
            } else {
                file_write_access()
            },
        ),
        RuleKind::Modify => Ok(file_write_access()),
        RuleKind::Create => {
            if recursive {
                Ok(create_access())
            } else {
                Err(EnforceError::CreateNeedsScope)
            }
        },
        RuleKind::Remove => {
            if recursive {
                Ok(remove_access())
            } else {
                Err(EnforceError::RemoveNeedsScope)
            }
        },
    }
}

/// The path of a pattern, and whether the pattern reaches what lies beneath it.
pub open spec fn rule_path(pattern: Seq<char>) -> (Seq<char>, bool) {
    if text::ends(pattern, "/**"@) {
        let base = pattern.take(pattern.len() - "/**"@.len());
        (
            if base.len() == 0 {
                "/"@
            } else {
                base
            },
            true,
        )
    } else {
        (pattern, false)
    }
}

/// Splits a pattern in its path and whether it reaches what lies beneath the path.
pub fn parse_write_rule(pattern: &str) -> (r: Result<(String, bool), EnforceError>)
    ensures
        match r {
            Ok((raw, recursive)) => {
                &&& rule_path(pattern@) == (raw@, recursive)
                &&& text::first_match(rule_path(pattern@).0, "*"@) is None
            },
            Err(e) => {
                &&& text::first_match(rule_path(pattern@).0, "*"@) is Some
                &&& e == EnforceError::Wildcard
            },
        },
{
    let chars = text::to_chars(pattern);
    let (raw, recursive): (String, bool) = match text::strip_back(chars.as_slice(), "/**") {
        Some(base) => {
            if base.len() == 0 {
                ("/".to_owned(), true)
            } else {
                (text::from_chars(base), true)
            }
        },
        None => (pattern.to_owned(), false),
    };
    let raw_chars = text::to_chars(raw.as_str());
    if text::contains(raw_chars.as_slice(), "*") {
        Err(EnforceError::Wildcard)
    } else {
        Ok((raw, recursive))
    }
}

/// The path is the token or starts with the token and a slash.
pub open spec fn uses_token(raw: Seq<char>, token: Seq<char>) -> bool {
    raw == token || text::begins(raw, token + "/"@)
}

/// The path with the directory in place of the token that it starts with.
pub open spec fn token_replaced(raw: Seq<char>, token: Seq<char>, base: Seq<char>) -> Seq<char> {
    if raw == token {
        base
    } else {
        path::path_join(base, raw.skip(token.len() as int + 1))
    }
}

/// The path is written as one of the project.
pub open spec fn project_scoped(raw: Seq<char>) -> bool {
    ||| uses_token(raw, "$PROJECT"@)
    ||| (!text::begins(raw, "$"@) && !path::absolute(raw))
}

/// The path that a rule is written for, with the directories in place of their names.
pub open spec fn expanded(
    raw: Seq<char>,
    project_root: Seq<char>,
    home: Option<Seq<char>>,
    temp: Seq<char>,
) -> Result<Seq<char>, EnforceError> {
    if uses_token(raw, "$PROJECT"@) {
        Ok(token_replaced(raw, "$PROJECT"@, project_root))
    } else if uses_token(raw, "$HOME"@) {
        match home {
            Some(home) => Ok(token_replaced(raw, "$HOME"@, home)),
            None => Err(EnforceError::MissingHome),
        }
    } else if uses_token(raw, "$TMP"@) {
        Ok(token_replaced(raw, "$TMP"@, temp))
    } else if text::begins(raw, "$"@) {
        Err(EnforceError::UnknownVariable)
    } else {
        Ok(path::path_join(project_root, raw))
    }
}

/// The path with the directory in place of the token, where it starts with the token.
pub fn expand_prefix(raw: &str, token: &str, base: &str) -> (r: Option<String>)
    ensures
        match r {
            Some(s) => uses_token(raw@, token@) && s@ == token_replaced(raw@, token@, base@),
            None => !uses_token(raw@, token@),
        },
{
    if text::same_str(raw, token) {
        return Some(base.to_owned());
    }
    let chars = text::to_chars(raw);
    let ghost longer = token@ + "/"@;
    proof {
        reveal_strlit("/");
        assert(longer.len() == token@.len() + 1);
        if text::begins(raw@, longer) {
            assert(raw@.subrange(0, token@.len() as int) =~= longer.subrange(
                0,
                token@.len() as int,
            ));
            assert(longer.subrange(0, token@.len() as int) =~= token@);
            assert(raw@.subrange(0, longer.len() as int)[token@.len() as int] == '/');
        }
    }
    match text::strip_front(chars.as_slice(), token) {
        Some(after) => {
            match text::strip_front(after, "/") {
                Some(rest) => {
                    assert(rest@ =~= raw@.skip(token@.len() as int + 1));
                    assert(after@.subrange(0, 1)[0] == '/');
                    assert(raw@.subrange(0, longer.len() as int) =~= longer);
                    let rest = text::from_chars(rest);
                    Some(path::join(base, rest.as_str()))
                },
                None => {
                    assert(text::begins(raw@, longer) ==> after@.subrange(0, 1) =~= "/"@);
                    None
                },
            }
        },
        None => None,
    }
}

/// Tells whether the path is written as one of the project.
pub fn is_project_scoped(raw: &str) -> (r: bool)
    ensures
        r == project_scoped(raw@),
{
    let chars = text::to_chars(raw);
    expand_prefix(raw, "$PROJECT", "").is_some() || (!text::starts_with(chars.as_slice(), "$")
        && !path::is_absolute(raw))
}

/// The path that a rule is written for, with the directories in place of their names.
pub fn expand_path(raw: &str, project_root: &str, home: Option<&str>, temp: &str) -> (r: Result<
    String,
    EnforceError,
>)
    ensures
        ({
            let wanted = expanded(
                raw@,
                project_root@,
                match home {
                    Some(home) => Some(home@),
                    None => None,
                },
                temp@,
            );
            match r {
                Ok(s) => wanted == Ok::<Seq<char>, EnforceError>(s@),
                Err(e) => wanted == Err::<Seq<char>, EnforceError>(e),
            }
        }),
{
    if let Some(expanded) = expand_prefix(raw, "$PROJECT", project_root) {
        return Ok(expanded);
    }
    match home {
        Some(home) => {
            if let Some(expanded) = expand_prefix(raw, "$HOME", home) {
                return Ok(expanded);
            }
        },
        None => {
            if expand_prefix(raw, "$HOME", "").is_some() {
                return Err(EnforceError::MissingHome);
            }
        },
    }
    if let Some(expanded) = expand_prefix(raw, "$TMP", temp) {
        return Ok(expanded);
    }
    let chars = text::to_chars(raw);
    if text::starts_with(chars.as_slice(), "$") {
        return Err(EnforceError::UnknownVariable);
    }
    Ok(path::join(project_root, raw))
}

/// Whether a rule may stand, once it is known where its path leads and what is there.
pub open spec fn resolved_fault(
    raw: Seq<char>,
    recursive: bool,
    canonical: Seq<char>,
    canonical_root: Seq<char>,
    is_dir: bool,
) -> Option<EnforceError> {
    if project_scoped(raw) && !path::beneath(canonical, canonical_root) {
        Some(EnforceError::EscapesProject)
    } else if recursive && !is_dir {
        Some(EnforceError::NotADirectory)
    } else if !recursive && is_dir {
        Some(EnforceError::DirectoryWithoutScope)
    } else {
        None
    }
}

/// Decides whether a rule may stand, once it is known where its path leads and what is
/// there.
pub fn check_resolved(
    raw: &str,
    recursive: bool,
    canonical: &str,
    canonical_root: &str,
    is_dir: bool,
) -> (r: Result<(), EnforceError>)
    ensures
        r == (match resolved_fault(raw@, recursive, canonical@, canonical_root@, is_dir) {
            Some(e) => Err::<(), EnforceError>(e),
            None => Ok::<(), EnforceError>(()),
        }),
{
    if is_project_scoped(raw) && !path::starts_with(canonical, canonical_root) {
        return Err(EnforceError::EscapesProject);
    }
    if recursive {
        if !is_dir {
            return Err(EnforceError::NotADirectory);
        }
    } else if is_dir {
        return Err(EnforceError::DirectoryWithoutScope);
    }
    Ok(())
}

/// Why a pattern grants nothing, once it is known where its path leads and what is
/// there.
pub open spec fn rule_fault(
    kind: RuleKind,
    pattern: Seq<char>,
    canonical: Seq<char>,
    canonical_root: Seq<char>,
    is_dir: bool,
) -> Option<EnforceError> {
    let (raw, recursive) = rule_path(pattern);
    if text::first_match(raw, "*"@) is Some {
        Some(EnforceError::Wildcard)
    } else if resolved_fault(raw, recursive, canonical, canonical_root, is_dir) is Some {
        resolved_fault(raw, recursive, canonical, canonical_root, is_dir)
    } else if kind is Create && !recursive {
        Some(EnforceError::CreateNeedsScope)
    } else if kind is Remove && !recursive {
        Some(EnforceError::RemoveNeedsScope)
    } else {
        None
    }
}

/// The rights that a pattern grants, once it is known where its path leads and what is
/// there.
pub fn settle_rule(
    kind: RuleKind,
    pattern: &str,
    canonical: &str,
    canonical_root: &str,
    is_dir: bool,
) -> (r: Result<Vec<FsAccess>, EnforceError>)
    ensures
        ({
            let fault = rule_fault(kind, pattern@, canonical@, canonical_root@, is_dir);
            match r {
                Ok(access) => {
                    &&& fault is None
                    &&& forall|a: FsAccess| #[trigger]
                        access@.contains(a) <==> grants(kind, rule_path(pattern@).1, a)
                    &&& access@.no_duplicates()
                },
                Err(e) => fault == Some(e),
            }
        }),
{
    let (raw, recursive) = match parse_write_rule(pattern) {
        Ok(parsed) => parsed,
        Err(e) => {
            return Err(e);
        },
    };
    match check_resolved(raw.as_str(), recursive, canonical, canonical_root, is_dir) {
        Ok(()) => rule_access(kind, recursive),
        Err(e) => Err(e),
    }
}

// ---------------------------------------------------------------------------
// Policies
// ---------------------------------------------------------------------------

/// The domains that are restricted.
#[derive(Debug, Clone, Copy, PartialEq, Eq, Structural)]
pub struct Domains {
    /// Every right to change the filesystem.
    pub filesystem: bool,
    /// TCP connect.
    pub connect_tcp: bool,
    /// TCP bind.
    pub bind_tcp: bool,
}

/// The domains that a policy restricts: those that it has an entry for.
pub open spec fn restricted_domains(policy: EnforcePolicy) -> Domains {
    Domains {
        filesystem: path_count(policy) > 0,
        connect_tcp: policy.connect_tcp@.len() > 0,
        bind_tcp: policy.bind_tcp@.len() > 0,
    }
}

/// The number of paths in a policy.
pub open spec fn path_count(policy: EnforcePolicy) -> nat {
    policy.write@.len() + policy.modify@.len() + policy.create@.len() + policy.remove@.len()
}

/// The domains that a policy restricts.
pub fn configured_domains(policy: &EnforcePolicy) -> (r: Domains)
    ensures
        r == restricted_domains(*policy),
{
    Domains {
        filesystem: policy.write.len() > 0 || policy.modify.len() > 0 || policy.create.len() > 0
            || policy.remove.len() > 0,
        connect_tcp: policy.connect_tcp.len() > 0,
        bind_tcp: policy.bind_tcp.len() > 0,
    }
}

/// Tells whether a policy restricts anything. One that does not leaves a command as it
/// is.
pub fn restricts_anything(policy: &EnforcePolicy) -> (r: bool)
    ensures
        r == !policy.is_empty(),
{
    let domains = configured_domains(policy);
    domains.filesystem || domains.connect_tcp || domains.bind_tcp
}

/// Paths of one kind, as requests.
pub open spec fn requests(kind: RuleKind, patterns: Seq<Seq<char>>) -> Seq<(RuleKind, Seq<char>)> {
    Seq::new(patterns.len(), |i: int| (kind, patterns[i]))
}

/// The paths that a policy asks for, in the order in which they are granted.
pub open spec fn path_requests(policy: EnforcePolicy) -> Seq<(RuleKind, Seq<char>)> {
    requests(RuleKind::Write, text::strings(policy.write@)) + requests(
        RuleKind::Modify,
        text::strings(policy.modify@),
    ) + requests(RuleKind::Create, text::strings(policy.create@)) + requests(
        RuleKind::Remove,
        text::strings(policy.remove@),
    )
}

/// The views of a list of requests.
pub open spec fn request_views(v: Seq<(RuleKind, &str)>) -> Seq<(RuleKind, Seq<char>)> {
    Seq::new(v.len(), |i: int| (v[i].0, v[i].1@))
}

/// Adds the paths of one kind to the requests.
fn add_requests<'a>(
    kind: RuleKind,
    patterns: &'a Vec<String>,
    list: &mut Vec<(RuleKind, &'a str)>,
)
    ensures
        request_views(final(list)@) == request_views(old(list)@) + requests(
            kind,
            text::strings(patterns@),
        ),
{
    let ghost all = requests(kind, text::strings(patterns@));
    let ghost first = request_views(list@);
    let mut i: usize = 0;
    assert(first =~= first + all.take(0));
    while i < patterns.len()
        invariant
            i <= patterns@.len(),
            all == requests(kind, text::strings(patterns@)),
            request_views(list@) == first + all.take(i as int),
        decreases patterns@.len() - i,
    {
        let ghost before = request_views(list@);
        list.push((kind, patterns[i].as_str()));
        assert(request_views(list@) =~= before.push(all[i as int]));
        assert(all.take(i + 1) =~= all.take(i as int).push(all[i as int]));
        assert(first + all.take(i + 1) =~= (first + all.take(i as int)).push(all[i as int]));
        i = i + 1;
    }
    assert(all.take(i as int) =~= all);
}

/// The paths that a policy asks for, in the order in which they are granted.
pub fn requested_paths(policy: &EnforcePolicy) -> (r: Vec<(RuleKind, &str)>)
    ensures
        request_views(r@) == path_requests(*policy),
{
    let mut r: Vec<(RuleKind, &str)> = Vec::new();
    assert(request_views(r@) =~= Seq::empty());
    add_requests(RuleKind::Write, &policy.write, &mut r);
    add_requests(RuleKind::Modify, &policy.modify, &mut r);
    add_requests(RuleKind::Create, &policy.create, &mut r);
    add_requests(RuleKind::Remove, &policy.remove, &mut r);
    assert(request_views(r@) =~= path_requests(*policy));
    r
}

/// Decides whether a restriction holds: it has to be fully enforced, and the process
/// must not be able to gain privileges. There is no silent downgrade.
pub fn check_active(fully_enforced: bool, no_new_privs: bool) -> (r: Result<(), EnforceError>)
    ensures
        r == (if fully_enforced && no_new_privs {
            Ok::<(), EnforceError>(())
        } else {
            Err::<(), EnforceError>(EnforceError::NotActive)
        }),
{
    if !fully_enforced || !no_new_privs {
        Err(EnforceError::NotActive)
    } else {
        Ok(())
    }
}

// ---------------------------------------------------------------------------
// Laws
// ---------------------------------------------------------------------------

/// An empty policy restricts nothing, and no other policy does so.
pub proof fn law_empty_policy_is_a_no_op(policy: EnforcePolicy)
    ensures
        policy.is_empty() <==> {
            let domains = restricted_domains(policy);
            !domains.filesystem && !domains.connect_tcp && !domains.bind_tcp
        },
        policy.is_empty() ==> path_requests(policy).len() == 0,
{
}

/// A path is granted something only where the filesystem is restricted.
pub proof fn law_requests_belong_to_a_restricted_domain(policy: EnforcePolicy)
    ensures
        path_requests(policy).len() == path_count(policy),
        restricted_domains(policy).filesystem <==> path_requests(policy).len() > 0,
{
}

/// A narrow permission grants nothing of the other narrow ones, and the broad one
/// grants all that any of them does.
pub proof fn law_narrow_permissions(a: FsAccess)
    ensures
        grants(RuleKind::Modify, true, a) ==> !grants(RuleKind::Create, true, a),
        grants(RuleKind::Modify, true, a) ==> !grants(RuleKind::Remove, true, a),
        grants(RuleKind::Create, true, a) ==> !grants(RuleKind::Remove, true, a),
        grants(RuleKind::Write, true, a),
        grants(RuleKind::Write, false, a) <==> grants(RuleKind::Modify, false, a),
        a is Refer ==> !grants(RuleKind::Modify, true, a) && !grants(RuleKind::Create, true, a)
            && !grants(RuleKind::Remove, true, a),
{
}

/// A pattern that is written as one of the project grants something only where its path
/// leads into the project.
pub proof fn law_project_rules_stay_in_the_project(
    kind: RuleKind,
    pattern: Seq<char>,
    canonical: Seq<char>,
    canonical_root: Seq<char>,
    is_dir: bool,
)
    requires
        project_scoped(rule_path(pattern).0),
        rule_fault(kind, pattern, canonical, canonical_root, is_dir) is None,
    ensures
        path::beneath(canonical, canonical_root),
{
}

/// A pattern grants more than changing the contents of files only on a directory, and
/// only where it ends in `/**`.
pub proof fn law_entries_change_only_beneath_directories(
    kind: RuleKind,
    pattern: Seq<char>,
    canonical: Seq<char>,
    canonical_root: Seq<char>,
    is_dir: bool,
    a: FsAccess,
)
    requires
        rule_fault(kind, pattern, canonical, canonical_root, is_dir) is None,
        grants(kind, rule_path(pattern).1, a),
        !changes_contents(a),
    ensures
        is_dir,
        text::ends(pattern, "/**"@),
{
}

/// Which rights each kind of rule grants.
pub proof fn law_rights_of_each_rule(recursive: bool, a: FsAccess)
    ensures
        grants(RuleKind::Write, true, a),
        grants(RuleKind::Write, false, a) <==> a == FsAccess::WriteFile || a == FsAccess::Truncate,
        grants(RuleKind::Modify, recursive, a) <==> a == FsAccess::WriteFile || a
            == FsAccess::Truncate,
        grants(RuleKind::Remove, recursive, a) <==> a == FsAccess::RemoveDir || a
            == FsAccess::RemoveFile,
        grants(RuleKind::Create, recursive, a) <==> a != FsAccess::WriteFile && a
            != FsAccess::Truncate && a != FsAccess::RemoveDir && a != FsAccess::RemoveFile && a
            != FsAccess::Refer,
{
}

/// The path in front of a final `/**`, and otherwise the pattern as it is.
pub proof fn law_path_of_a_pattern(base: Seq<char>)
    ensures
        base.len() > 0 ==> rule_path(base + "/**"@) == (base, true),
        rule_path("/**"@) == ("/"@, true),
        !"/**"@.is_suffix_of(base) ==> rule_path(base) == (base, false),
{
    reveal_strlit("/**");
    let pattern = base + "/**"@;
    text::law_begins_and_ends(base, "/**"@);
    assert(pattern.take(pattern.len() - "/**"@.len()) =~= base);
    text::law_begins_and_ends(Seq::<char>::empty(), "/**"@);
    assert(Seq::<char>::empty() + "/**"@ =~= "/**"@);
}

/// A path is written as one of the project where it is `$PROJECT`, begins with
/// `$PROJECT/`, or begins neither with a `$` nor with a slash.
pub proof fn law_project_spelling(raw: Seq<char>)
    ensures
        project_scoped(raw) <==> raw == "$PROJECT"@ || "$PROJECT/"@.is_prefix_of(raw) || (
        raw.len() == 0 || (raw[0] != '$' && raw[0] != '/')),
{
    reveal_strlit("$PROJECT");
    reveal_strlit("$PROJECT/");
    reveal_strlit("/");
    reveal_strlit("$");
    assert("$PROJECT"@ + "/"@ =~= "$PROJECT/"@);
    text::law_begins_and_ends(raw, "$PROJECT/"@);
    text::lemma_begins(raw, "$"@, 0);
}

/// When a rule is accepted: no `*` stands in its path, a path that is written as one of the
/// project leads into it, `/**` is there exactly for a directory, and rules for creation
/// and removal have it.
pub proof fn law_when_a_rule_is_accepted(
    kind: RuleKind,
    pattern: Seq<char>,
    canonical: Seq<char>,
    canonical_root: Seq<char>,
    is_dir: bool,
)
    ensures
        ({
            let scoped = "/**"@.is_suffix_of(pattern);
            let raw = if !scoped {
                pattern
            } else if pattern == "/**"@ {
                "/"@
            } else {
                pattern.take(pattern.len() - 3)
            };
            let in_project = raw == "$PROJECT"@ || "$PROJECT/"@.is_prefix_of(raw) || raw.len() == 0
                || (raw[0] != '$' && raw[0] != '/');
            rule_fault(kind, pattern, canonical, canonical_root, is_dir) is None <==> {
                &&& !raw.contains('*')
                &&& in_project ==> path::beneath(canonical, canonical_root)
                &&& is_dir == scoped
                &&& kind == RuleKind::Create || kind == RuleKind::Remove ==> scoped
            }
        }),
{
    reveal_strlit("/**");
    reveal_strlit("/");
    reveal_strlit("*");
    text::law_begins_and_ends(pattern, "/**"@);
    let raw = rule_path(pattern).0;
    if "/**"@.is_suffix_of(pattern) && pattern.len() == 3 {
        assert(pattern =~= "/**"@);
    }
    law_project_spelling(raw);
    lemma_star(raw);
}

/// A text holds a `*` exactly where a search finds one.
proof fn lemma_star(s: Seq<char>)
    ensures
        text::first_match(s, "*"@) is Some <==> s.contains('*'),
{
    reveal_strlit("*");
    text::law_first_match(s, "*"@);
    if s.contains('*') {
        let k = choose|k: int| 0 <= k < s.len() && s[k] == '*';
        assert(s.subrange(k, k + "*"@.len()) =~= "*"@);
    }
    if text::first_match(s, "*"@) is Some {
        let at = text::first_match(s, "*"@)->0;
        assert(s.subrange(at, at + "*"@.len())[0] == '*');
        assert(s[at] == '*');
    }
}

/// Why a rule is refused: a stray `*` first, then a path that leaves the project, then a
/// `/**` that does not fit what is there, then the need for one.
pub proof fn law_why_a_rule_is_refused(
    kind: RuleKind,
    pattern: Seq<char>,
    canonical: Seq<char>,
    canonical_root: Seq<char>,
    is_dir: bool,
)
    ensures
        ({
            let (raw, scoped) = rule_path(pattern);
            let fault = rule_fault(kind, pattern, canonical, canonical_root, is_dir);
            &&& fault == Some(EnforceError::Wildcard) <==> raw.contains('*')
            &&& fault == Some(EnforceError::EscapesProject) <==> !raw.contains('*')
                && project_scoped(raw) && !path::beneath(canonical, canonical_root)
            &&& fault == Some(EnforceError::NotADirectory) ==> scoped && !is_dir
            &&& fault == Some(EnforceError::DirectoryWithoutScope) ==> !scoped && is_dir
            &&& fault == Some(EnforceError::CreateNeedsScope) ==> kind == RuleKind::Create
                && !scoped && !is_dir
            &&& fault == Some(EnforceError::RemoveNeedsScope) ==> kind == RuleKind::Remove
                && !scoped && !is_dir
            &&& fault != Some(EnforceError::MissingHome)
            &&& fault != Some(EnforceError::UnknownVariable)
            &&& fault != Some(EnforceError::NotActive)
        }),
{
    lemma_star(rule_path(pattern).0);
}

/// Each named directory stands in for its name, and only there.
pub proof fn law_names_are_expanded(
    rest: Seq<char>,
    project_root: Seq<char>,
    home: Option<Seq<char>>,
    temp: Seq<char>,
)
    ensures
        expanded("$PROJECT"@, project_root, home, temp) == Ok::<Seq<char>, EnforceError>(
            project_root,
        ),
        expanded("$PROJECT/"@ + rest, project_root, home, temp) == Ok::<Seq<char>, EnforceError>(
            path::path_join(project_root, rest),
        ),
        expanded("$TMP"@, project_root, home, temp) == Ok::<Seq<char>, EnforceError>(temp),
        expanded("$TMP/"@ + rest, project_root, home, temp) == Ok::<Seq<char>, EnforceError>(
            path::path_join(temp, rest),
        ),
        home is Some ==> expanded("$HOME"@, project_root, home, temp) == Ok::<
            Seq<char>,
            EnforceError,
        >(home->0),
        home is Some ==> expanded("$HOME/"@ + rest, project_root, home, temp) == Ok::<
            Seq<char>,
            EnforceError,
        >(path::path_join(home->0, rest)),
        home is None ==> expanded("$HOME"@, project_root, home, temp) == Err::<
            Seq<char>,
            EnforceError,
        >(EnforceError::MissingHome),
        home is None ==> expanded("$HOME/"@ + rest, project_root, home, temp) == Err::<
            Seq<char>,
            EnforceError,
        >(EnforceError::MissingHome),
        rest.len() == 0 || rest[0] != '$' ==> expanded(rest, project_root, home, temp) == Ok::<
            Seq<char>,
            EnforceError,
        >(path::path_join(project_root, rest)),
{
    reveal_strlit("/");
    reveal_strlit("$");
    reveal_strlit("$PROJECT");
    reveal_strlit("$PROJECT/");
    reveal_strlit("$HOME");
    reveal_strlit("$HOME/");
    reveal_strlit("$TMP");
    reveal_strlit("$TMP/");
    assert("$PROJECT"@ + "/"@ =~= "$PROJECT/"@);
    assert("$HOME"@ + "/"@ =~= "$HOME/"@);
    assert("$TMP"@ + "/"@ =~= "$TMP/"@);
    lemma_token("$PROJECT"@, rest);
    lemma_token("$HOME"@, rest);
    lemma_token("$TMP"@, rest);
    assert("$PROJECT"@[1] == 'P' && "$HOME"@[1] == 'H' && "$TMP"@[1] == 'T');
    lemma_other_token("$HOME"@, "$PROJECT"@);
    lemma_other_token("$HOME/"@ + rest, "$PROJECT"@);
    lemma_other_token("$TMP"@, "$PROJECT"@);
    lemma_other_token("$TMP/"@ + rest, "$PROJECT"@);
    lemma_other_token("$TMP"@, "$HOME"@);
    lemma_other_token("$TMP/"@ + rest, "$HOME"@);
    if rest.len() == 0 || rest[0] != '$' {
        text::lemma_begins(rest, "$PROJECT"@ + "/"@, 0);
        text::lemma_begins(rest, "$HOME"@ + "/"@, 0);
        text::lemma_begins(rest, "$TMP"@ + "/"@, 0);
        text::lemma_begins(rest, "$"@, 0);
        if rest.len() > 0 {
            assert(rest != "$PROJECT"@ && rest != "$HOME"@ && rest != "$TMP"@) by {
                assert("$PROJECT"@[0] == '$' && "$HOME"@[0] == '$' && "$TMP"@[0] == '$');
            }
        }
    }
}

/// A path that starts with the token and a slash.
proof fn lemma_token(token: Seq<char>, rest: Seq<char>)
    ensures
        uses_token(token, token),
        uses_token(token + "/"@ + rest, token),
        token_replaced(token + "/"@ + rest, token, Seq::empty()) == path::path_join(
            Seq::empty(),
            rest,
        ),
        forall|base: Seq<char>| #[trigger]
            token_replaced(token + "/"@ + rest, token, base) == path::path_join(base, rest),
{
    reveal_strlit("/");
    text::law_begins_and_ends(token + "/"@, rest);
    let raw = token + "/"@ + rest;
    assert(raw.len() > token.len());
    assert(raw.skip(token.len() as int + 1) =~= rest);
}

/// A path whose second character is another one does not use the token.
proof fn lemma_other_token(raw: Seq<char>, token: Seq<char>)
    requires
        raw.len() > 1,
        token.len() > 1,
        raw[1] != token[1],
    ensures
        !uses_token(raw, token),
{
    text::law_begins_and_ends(raw, token + "/"@);
    if (token + "/"@).is_prefix_of(raw) {
        assert(raw.take((token + "/"@).len() as int)[1] == raw[1]);
    }
}

/// A variable that is not known is refused.
pub proof fn law_unknown_variables_are_refused(
    raw: Seq<char>,
    project_root: Seq<char>,
    home: Option<Seq<char>>,
    temp: Seq<char>,
)
    requires
        raw.len() > 0,
        raw[0] == '$',
        raw != "$PROJECT"@ && !"$PROJECT/"@.is_prefix_of(raw),
        raw != "$HOME"@ && !"$HOME/"@.is_prefix_of(raw),
        raw != "$TMP"@ && !"$TMP/"@.is_prefix_of(raw),
    ensures
        expanded(raw, project_root, home, temp) == Err::<Seq<char>, EnforceError>(
            EnforceError::UnknownVariable,
        ),
{
    reveal_strlit("/");
    reveal_strlit("$");
    reveal_strlit("$PROJECT");
    reveal_strlit("$PROJECT/");
    reveal_strlit("$HOME");
    reveal_strlit("$HOME/");
    reveal_strlit("$TMP");
    reveal_strlit("$TMP/");
    assert("$PROJECT"@ + "/"@ =~= "$PROJECT/"@);
    assert("$HOME"@ + "/"@ =~= "$HOME/"@);
    assert("$TMP"@ + "/"@ =~= "$TMP/"@);
    text::law_begins_and_ends(raw, "$PROJECT/"@);
    text::law_begins_and_ends(raw, "$HOME/"@);
    text::law_begins_and_ends(raw, "$TMP/"@);
    text::lemma_begins(raw, "$"@, 0);
}

/// The filesystem is restricted where one of the four lists of paths has an entry, and
/// each sort of ports where its own list has one.
pub proof fn law_lists_restrict_their_domain(policy: EnforcePolicy)
    ensures
        restricted_domains(policy).filesystem <==> policy.write@.len() > 0
            || policy.modify@.len() > 0 || policy.create@.len() > 0 || policy.remove@.len() > 0,
        restricted_domains(policy).connect_tcp <==> policy.connect_tcp@.len() > 0,
        restricted_domains(policy).bind_tcp <==> policy.bind_tcp@.len() > 0,
{
}

/// Each path of a policy is requested as what its list says, the lists one after the
/// other.
pub proof fn law_paths_are_requested_by_list(policy: EnforcePolicy, i: int)
    ensures
        ({
            let w = policy.write@.len();
            let m = policy.modify@.len();
            let c = policy.create@.len();
            let all = path_requests(policy);
            &&& all.len() == w + m + c + policy.remove@.len()
            &&& 0 <= i < w ==> all[i] == (RuleKind::Write, policy.write@[i]@)
            &&& 0 <= i < m ==> all[w + i] == (RuleKind::Modify, policy.modify@[i]@)
            &&& 0 <= i < c ==> all[w + m + i] == (RuleKind::Create, policy.create@[i]@)
            &&& 0 <= i < policy.remove@.len() ==> all[w + m + c + i] == (
                RuleKind::Remove,
                policy.remove@[i]@,
            )
        }),
{
}

} // verus!
