use vstd::prelude::*;
use crate::model::{Error, Package, Snapshot};
use crate::render::{concat_all, detail_lines, display_list, display_one, table_of, tabulated, texts};
use crate::select::{derefs, member, select};

verus! {

/// The options of one summary request.
pub struct Info {
    /// The wildcard pattern that dependency names are matched against.
    pub package: String,
    /// Leave out edges declared for development only.
    pub no_dev: bool,
    /// Summarise every workspace member, not only the resolution root.
    pub recursive: bool,
}

/// The pattern that matches every dependency, and is the default.
pub open spec fn is_wildcard(pattern: Seq<char>) -> bool {
    pattern == seq!['*']
}

/// Every workspace member is summarised when asked for, or when the graph
/// has no resolution root.
pub open spec fn is_recursive(opt: Info, s: Snapshot) -> bool {
    opt.recursive || s.root is None
}

/// The ids of the packages whose dependencies are summarised, in order.
pub open spec fn scope_ids(opt: Info, s: Snapshot) -> Seq<Seq<char>> {
    if is_recursive(opt, s) {
        texts(s.workspace_members@)
    } else {
        seq![s.root->Some_0@]
    }
}

/// More than one scope is summarised.
pub open spec fn many_scopes(opt: Info, s: Snapshot) -> bool {
    scope_ids(opt, s).len() > 1
}

/// The aligned body for the matches of one scope: the detailed listing where
/// a single package matched in a single scope, else the brief table.
pub open spec fn body_of(packages: Seq<Package>, many: bool) -> Seq<char> {
    if many || packages.len() > 1 {
        tabulated(table_of(packages))
    } else {
        tabulated(concat_all(detail_lines(packages[0])))
    }
}

/// What one scope contributes: nothing where nothing matched; else its body,
/// framed by a header line and a blank line when more than one scope is
/// summarised.
pub open spec fn scope_text(opt: Info, s: Snapshot, scope: Seq<char>) -> Seq<char> {
    let packages = select(s, scope, opt.package@, opt.no_dev);
    let many = many_scopes(opt, s);
    if packages.len() == 0 {
        Seq::empty()
    } else if many {
        seq!['#', ' '] + scope + seq!['\n', '\n'] + body_of(packages, many) + seq!['\n']
    } else {
        body_of(packages, many)
    }
}

/// The whole summary: the texts of the scopes in order.
pub open spec fn brief_text(opt: Info, s: Snapshot) -> Seq<char> {
    concat_all(scope_ids(opt, s).map_values(|id: Seq<char>| scope_text(opt, s, id)))
}

/// No scope has a matching dependency.
pub open spec fn no_match(opt: Info, s: Snapshot) -> bool {
    forall|i: int| 0 <= i < scope_ids(opt, s).len() ==> #[trigger] select(s, scope_ids(opt, s)[i], opt.package@, opt.no_dev).len() == 0
}

/// The ids of the packages whose dependencies are summarised.
pub fn scopes(opt: &Info, metadata: &Snapshot) -> (r: Vec<String>)
    ensures
        texts(r@) == scope_ids(*opt, *metadata),
{
    let mut r: Vec<String> = Vec::new();
    match &metadata.root {
        Some(root) => {
            if !opt.recursive {
                r.push(root.clone());
                proof {
                    assert(texts(r@) =~= scope_ids(*opt, *metadata));
                }
                return r;
            }
        },
        None => {},
    }
    let members = &metadata.workspace_members;
    let mut i: usize = 0;
    while i < members.len()
        invariant
            i <= members@.len(),
            members == &metadata.workspace_members,
            r@.len() == i,
            texts(r@) == texts(members@).take(i as int),
        decreases members@.len() - i,
    {
        let ghost prev = r@;
        r.push(members[i].clone());
        proof {
            assert(r@[i as int] == members@[i as int]);
            assert forall|j: int| 0 <= j < i implies r@[j] == prev[j] by {}
            assert(texts(r@) =~= texts(members@).take(i + 1));
        }
        i = i + 1;
    }
    proof {
        assert(texts(members@).take(i as int) =~= texts(members@));
    }
    r
}

fn is_wildcard_pattern(pattern: &String) -> (r: bool)
    ensures
        r == is_wildcard(pattern@),
{
    let p = pattern.as_str();
    let r = p.unicode_len() == 1 && p.get_char(0) == '*';
    proof {
        if r {
            assert(p@ =~= seq!['*']);
        }
    }
    r
}

/// Summarises the dependencies of the resolution root, or of every workspace
/// member, that `opt` selects. Fails with `NotFound` exactly where nothing
/// matched and the pattern is not the wildcard `*`.
pub fn brief(opt: &Info, metadata: &Snapshot) -> (r: Result<String, Error>)
    requires
        metadata.wf(),
    ensures
        r is Ok ==> r->Ok_0@ == brief_text(*opt, *metadata),
        (r matches Err(Error::NotFound(n))) <==> no_match(*opt, *metadata) && !is_wildcard(opt.package@),
        r matches Err(Error::NotFound(n)) ==> n@ == opt.package@,
        no_match(*opt, *metadata) && is_wildcard(opt.package@) ==> r is Ok && r->Ok_0@.len() == 0,
        !(no_match(*opt, *metadata) && !is_wildcard(opt.package@)) ==> r is Ok,
{
    let members = scopes(opt, metadata);
    let many = members.len() > 1;
    let ghost ids = scope_ids(*opt, *metadata);
    let ghost parts = ids.map_values(|id: Seq<char>| scope_text(*opt, *metadata, id));
    let mut out = String::new();
    let mut found = false;
    let mut i: usize = 0;
    while i < members.len()
        invariant
            i <= members@.len(),
            metadata.wf(),
            many == many_scopes(*opt, *metadata),
            texts(members@) == ids,
            ids == scope_ids(*opt, *metadata),
            parts == ids.map_values(|id: Seq<char>| scope_text(*opt, *metadata, id)),
            out@ == concat_all(parts.take(i as int)),
            !found <==> forall|j: int| 0 <= j < i ==> #[trigger] select(*metadata, ids[j], opt.package@, opt.no_dev).len() == 0,
            !found ==> out@.len() == 0,
        decreases members@.len() - i,
    {
        let scope = &members[i];
        let packages = member(opt, metadata, scope);
        proof {
            assert(scope@ == ids[i as int]);
            assert(parts.take(i + 1).drop_last() =~= parts.take(i as int));
            assert(parts[i as int] == scope_text(*opt, *metadata, scope@));
        }
        if packages.len() == 0 {
            proof {
                assert(derefs(packages@).len() == 0);
                assert(out@ =~= concat_all(parts.take(i + 1)));
            }
            i = i + 1;
            continue;
        }
        found = true;
        let ghost before = out@;
        if many {
            out.append("# ");
            out.append(scope.as_str());
            out.append("\n\n");
        }
        proof {
            assert(derefs(packages@).len() == packages@.len());
        }
        let body = if many || packages.len() > 1 {
            display_list(&packages)
        } else {
            display_one(packages[0])
        };
        match body {
            Ok(b) => out.append(b.as_str()),
            Err(e) => {
                proof {
                    assert(select(*metadata, ids[i as int], opt.package@, opt.no_dev).len() > 0);
                }
                return Err(e);
            },
        }
        if many {
            out.append("\n");
        }
        proof {
            reveal_strlit("# ");
            reveal_strlit("\n\n");
            reveal_strlit("\n");
            let ps = select(*metadata, scope@, opt.package@, opt.no_dev);
            assert(derefs(packages@) == ps);
            assert(derefs(packages@).len() == packages@.len());
            if !(many || packages@.len() > 1) {
                assert(derefs(packages@)[0] == *packages@[0]);
            }
            assert(out@ =~= before + scope_text(*opt, *metadata, scope@));
            assert(select(*metadata, ids[i as int], opt.package@, opt.no_dev).len() > 0);
        }
        i = i + 1;
    }
    proof {
        assert(parts.take(i as int) =~= parts);
    }
    if !found && !is_wildcard_pattern(&opt.package) {
        return Err(Error::NotFound(opt.package.clone()));
    }
    Ok(out)
}

} // verus!
