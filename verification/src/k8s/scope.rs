//! Which namespace a request goes to.
use crate::output::Error;
use crate::text::{quote, quoted};
use crate::value::opt;
use vstd::prelude::*;
use vstd::string::*;

verus! {

/// Whether objects of a kind stand in a namespace.
#[derive(Clone, Copy, Debug, PartialEq, Eq, Structural)]
pub enum Scope {
    Namespaced,
    Cluster,
}

/// The namespace to list: none where all are wanted, else the one given, else the default.
pub open spec fn listed_namespace(namespace: Option<Seq<char>>, all: bool, default: Seq<char>) -> Option<Seq<char>> {
    if all {
        None
    } else {
        Some(single_namespace(namespace, default))
    }
}

/// The namespace given, else the default.
pub open spec fn single_namespace(namespace: Option<Seq<char>>, default: Seq<char>) -> Seq<char> {
    match namespace {
        Some(ns) => ns,
        None => default,
    }
}

/// The namespace to list for kinds that stand in one.
pub fn list_namespace(namespace: &Option<String>, all: bool, default: &str) -> (r: Option<String>)
    ensures
        opt(r) == listed_namespace(opt(*namespace), all, default@),
{
    if all {
        None
    } else {
        Some(one_namespace(namespace, default))
    }
}

/// The namespace given, else the default.
pub fn one_namespace(namespace: &Option<String>, default: &str) -> (r: String)
    ensures
        r@ == single_namespace(opt(*namespace), default@),
{
    match namespace {
        Some(ns) => ns.clone(),
        None => default.to_owned(),
    }
}

/// The namespace that one object is fetched from: none for a kind of the whole cluster.
pub fn object_namespace(scope: Scope, namespace: &Option<String>, default: &str) -> (r: Option<String>)
    ensures
        opt(r) == match scope {
            Scope::Cluster => None,
            Scope::Namespaced => Some(single_namespace(opt(*namespace), default@)),
        },
{
    match scope {
        Scope::Cluster => None,
        Scope::Namespaced => Some(one_namespace(namespace, default)),
    }
}

/// Why a flag that names namespaces is refused for a kind of the whole cluster.
pub open spec fn refusal(kind: Seq<char>, flag: Seq<char>) -> Seq<char> {
    "kind "@ + quoted(kind) + " is cluster-scoped — "@ + flag + " is not valid for it"@
}

fn refuse(kind: &str, flag: &str) -> (e: Error)
    ensures
        e.message@ == refusal(kind@, flag@),
{
    let mut message = "kind ".to_owned();
    message.append(quote(kind).as_str());
    message.append(" is cluster-scoped — ");
    message.append(flag);
    message.append(" is not valid for it");
    Error { message }
}

/// Checks the flags that name namespaces against the scope of the kind.
pub fn check_scope(scope: Scope, namespace: &Option<String>, all: bool, kind: &str) -> (r: Result<(), Error>)
    ensures
        match r {
            Ok(_) => scope == Scope::Namespaced || (namespace is None && !all),
            Err(e) => scope == Scope::Cluster && if namespace is Some {
                e.message@ == refusal(kind@, "--namespace"@)
            } else {
                all && e.message@ == refusal(kind@, "--all-namespaces"@)
            },
        },
{
    match scope {
        Scope::Namespaced => Ok(()),
        Scope::Cluster => if namespace.is_some() {
            Err(refuse(kind, "--namespace"))
        } else if all {
            Err(refuse(kind, "--all-namespaces"))
        } else {
            Ok(())
        },
    }
}

/// The namespace to list for a kind of either scope, with the flags checked against it.
pub fn scoped_namespace(scope: Scope, namespace: &Option<String>, all: bool, default: &str, kind: &str) -> (r: Result<
    Option<String>,
    Error,
>)
    ensures
        match r {
            Ok(ns) => match scope {
                Scope::Namespaced => opt(ns) == listed_namespace(opt(*namespace), all, default@),
                Scope::Cluster => ns is None && namespace is None && !all,
            },
            Err(e) => scope == Scope::Cluster && if namespace is Some {
                e.message@ == refusal(kind@, "--namespace"@)
            } else {
                all && e.message@ == refusal(kind@, "--all-namespaces"@)
            },
        },
{
    match check_scope(scope, namespace, all, kind) {
        Ok(_) => match scope {
            Scope::Cluster => Ok(None),
            Scope::Namespaced => Ok(list_namespace(namespace, all, default)),
        },
        Err(e) => Err(e),
    }
}

/// A namespace that is named is the one that is read, whatever the default; the default is read where
/// none is named, and all of them just where all are asked for.
pub proof fn named_namespaces_go_first(ns: Seq<char>, named: Option<Seq<char>>, all: bool, default: Seq<char>)
    ensures
        single_namespace(Some(ns), default) == ns,
        single_namespace(None, default) == default,
        listed_namespace(Some(ns), false, default) == Some(ns),
        listed_namespace(None, false, default) == Some(default),
        listed_namespace(named, all, default) is None <==> all,
{
}

} // verus!
