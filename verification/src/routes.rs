//! Route matching and namespace validation: the decision core of the HTTP
//! surface.
//!
//! Paths are handled as raw bytes. The router recognises three routes:
//! `/health`, `/namespaces/{namespace}` and
//! `/namespaces/{namespace}/keys/{key}`, with nonempty, slash-free
//! parameters; everything else is not found. The HTTP transport itself
//! (sockets, request objects, response serialisation, futures) is glue
//! outside this library; callers feed the path in and carry the decision
//! out.

use vstd::prelude::*;

use crate::{bytes_eq, clone_bytes};

verus! {

/// The path separator byte, `'/'`.
pub const SLASH: u8 = 47;

/// The bytes of `"/health"`.
pub open spec fn health_path() -> Seq<u8> {
    seq![47u8, 104u8, 101u8, 97u8, 108u8, 116u8, 104u8]
}

/// The bytes of `"/namespaces/"`.
pub open spec fn ns_prefix() -> Seq<u8> {
    seq![47u8, 110u8, 97u8, 109u8, 101u8, 115u8, 112u8, 97u8, 99u8, 101u8, 115u8, 47u8]
}

/// The bytes of `"/keys/"`.
pub open spec fn keys_mid() -> Seq<u8> {
    seq![47u8, 107u8, 101u8, 121u8, 115u8, 47u8]
}

/// The bytes of `"invalid"`, the one namespace the guard turns away.
pub open spec fn invalid_text() -> Seq<u8> {
    seq![105u8, 110u8, 118u8, 97u8, 108u8, 105u8, 100u8]
}

/// The bytes of `"Namespace "`.
pub open spec fn namespace_prefix_text() -> Seq<u8> {
    seq![78u8, 97u8, 109u8, 101u8, 115u8, 112u8, 97u8, 99u8, 101u8, 32u8]
}

/// The bytes of `" key "`.
pub open spec fn key_mid_text() -> Seq<u8> {
    seq![32u8, 107u8, 101u8, 121u8, 32u8]
}

/// No separator anywhere in `s`.
pub open spec fn no_slash(s: Seq<u8>) -> bool {
    forall|i: int| 0 <= i < s.len() ==> s[i] != SLASH
}

/// The position of the first separator in `s`, or -1 when there is none.
pub open spec fn first_slash(s: Seq<u8>) -> int
    decreases s.len(),
{
    if s.len() == 0 {
        -1
    } else if s[0] == SLASH {
        0
    } else {
        let r = first_slash(s.drop_first());
        if r == -1 {
            -1
        } else {
            r + 1
        }
    }
}

/// Is `s` exactly `/namespaces/{ns}` with `ns` nonempty and slash-free?
pub open spec fn is_namespace_path(s: Seq<u8>) -> bool {
    s.len() > ns_prefix().len() && s.take(ns_prefix().len() as int) == ns_prefix() && no_slash(
        s.skip(ns_prefix().len() as int),
    )
}

/// The `{ns}` of a `/namespaces/{ns}` path.
pub open spec fn namespace_of(s: Seq<u8>) -> Seq<u8> {
    s.skip(ns_prefix().len() as int)
}

/// Is `s` exactly `/namespaces/{ns}/keys/{key}` with `ns` and `key` nonempty
/// and slash-free?
pub open spec fn is_namespace_key_path(s: Seq<u8>) -> bool {
    s.len() > ns_prefix().len() && s.take(ns_prefix().len() as int) == ns_prefix() && ({
        let rest = s.skip(ns_prefix().len() as int);
        let i = first_slash(rest);
        0 < i && i + keys_mid().len() < rest.len() && rest.subrange(i, i + keys_mid().len())
            == keys_mid() && no_slash(rest.skip(i + keys_mid().len()))
    })
}

/// The `{ns}` of a `/namespaces/{ns}/keys/{key}` path.
pub open spec fn ns_key_namespace(s: Seq<u8>) -> Seq<u8> {
    let rest = s.skip(ns_prefix().len() as int);
    rest.take(first_slash(rest))
}

/// The `{key}` of a `/namespaces/{ns}/keys/{key}` path.
pub open spec fn ns_key_key(s: Seq<u8>) -> Seq<u8> {
    let rest = s.skip(ns_prefix().len() as int);
    rest.skip(first_slash(rest) + keys_mid().len())
}

/// What the router makes of a request path.
pub enum RouteMatch {
    /// `/namespaces/{ns}`: the captured namespace.
    Namespace(Vec<u8>),
    /// `/namespaces/{ns}/keys/{key}`: the captured namespace and key.
    NamespaceKey(Vec<u8>, Vec<u8>),
    /// `/health`.
    Health,
    /// No route matches.
    NotFound,
}

/// Match a request path against the application's three routes, capturing
/// the path parameters.
pub fn route(path: &Vec<u8>) -> (r: RouteMatch)
    ensures
        r is Health <==> path@ == health_path(),
        r is Namespace <==> is_namespace_path(path@),
        r matches RouteMatch::Namespace(ns) ==> ns@ == namespace_of(path@),
        r is NamespaceKey <==> is_namespace_key_path(path@),
        r matches RouteMatch::NamespaceKey(ns, key) ==> ns@ == ns_key_namespace(path@) && key@
            == ns_key_key(path@),
        r is NotFound <==> !(path@ == health_path() || is_namespace_path(path@)
            || is_namespace_key_path(path@)),
{
    let hp = health_path_vec();
    if bytes_eq(path, &hp) {
        return RouteMatch::Health;
    }
    let np = ns_prefix_vec();
    if path.len() <= np.len() || !starts_with(path, &np) {
        return RouteMatch::NotFound;
    }
    let rest = subvec(path, np.len(), path.len());
    proof {
        assert(rest@ == path@.skip(ns_prefix().len() as int));
        assert(path@.take(np@.len() as int) == ns_prefix());
    }
    match find_slash(&rest) {
        None => RouteMatch::Namespace(rest),
        Some(i) => {
            if i == 0 {
                return RouteMatch::NotFound;
            }
            let km = keys_mid_vec();
            if rest.len() - i <= km.len() {
                return RouteMatch::NotFound;
            }
            if !segment_eq(&rest, i, &km) {
                return RouteMatch::NotFound;
            }
            if !no_slash_from(&rest, i + km.len()) {
                return RouteMatch::NotFound;
            }
            let ns = subvec(&rest, 0, i);
            let key = subvec(&rest, i + km.len(), rest.len());
            RouteMatch::NamespaceKey(ns, key)
        },
    }
}

/// The namespace guard's decision for a captured namespace parameter: a
/// request whose namespace is `"invalid"` is turned away as not found; any
/// other request, with or without a namespace parameter, is forwarded.
pub fn namespace_middleware(namespace: Option<&Vec<u8>>) -> (forward: bool)
    ensures
        forward <==> !(namespace matches Some(ns) && ns@ == invalid_text()),
{
    match namespace {
        Some(ns) => {
            let inv = invalid_vec();
            !bytes_eq(ns, &inv)
        },
        None => true,
    }
}

/// A namespace resource: its id and its display name.
pub struct Namespace {
    pub id: Vec<u8>,
    pub name: Vec<u8>,
}

/// The display name of a namespace: `"Namespace {id}"`.
pub open spec fn namespace_name(id: Seq<u8>) -> Seq<u8> {
    namespace_prefix_text() + id
}

/// The `/namespaces/{ns}` handler: the namespace resource for the captured
/// id.
pub fn get_namespace(id: Vec<u8>) -> (r: Namespace)
    ensures
        r.id@ == id@,
        r.name@ == namespace_name(id@),
{
    let prefix = namespace_prefix_vec();
    let name = concat_bytes(&prefix, &id);
    Namespace { id, name }
}

/// The body of a `/namespaces/{ns}/keys/{key}` reply:
/// `"Namespace {id} key {key}"`.
pub open spec fn namespace_key_text(id: Seq<u8>, key: Seq<u8>) -> Seq<u8> {
    namespace_prefix_text() + id + key_mid_text() + key
}

/// The `/namespaces/{ns}/keys/{key}` handler.
pub fn get_namespace_key(id: Vec<u8>, key: Vec<u8>) -> (r: Vec<u8>)
    ensures
        r@ == namespace_key_text(id@, key@),
{
    let prefix = namespace_prefix_vec();
    let mid = key_mid_vec();
    let a = concat_bytes(&prefix, &id);
    let b = concat_bytes(&a, &mid);
    concat_bytes(&b, &key)
}

/// The `/health` handler: the OK status code.
pub fn health_check() -> (r: u16)
    ensures
        r == 200,
{
    200
}

/// Decides whether a namespace exists. The application implements this
/// against its own source of truth (a store lookup, a remote call); the
/// middleware only consumes the answer.
pub trait NamespaceValidator: Sized {
    /// Which namespaces this validator accepts.
    spec fn spec_exists(&self, namespace: Seq<u8>) -> bool;

    /// Does the namespace exist?
    fn namespace_exists(&self, namespace: &Vec<u8>) -> (r: bool)
        ensures
            r == self.spec_exists(namespace@),
    ;
}

/// A validator that accepts every namespace.
#[derive(Clone, Copy, Debug)]
pub struct ExampleValidator;

impl NamespaceValidator for ExampleValidator {
    open spec fn spec_exists(&self, namespace: Seq<u8>) -> bool {
        true
    }

    fn namespace_exists(&self, namespace: &Vec<u8>) -> (r: bool) {
        let _ = namespace;
        true
    }
}

/// A layer that wraps an inner service with namespace validation.
pub struct ValidateNamespaceLayer<V> {
    pub validator: V,
}

impl<V: NamespaceValidator + Clone> ValidateNamespaceLayer<V> {
    /// A layer carrying the given validator.
    pub fn new(validator: V) -> (r: Self)
        ensures
            r.validator == validator,
    {
        ValidateNamespaceLayer { validator }
    }

    /// Wrap an inner service in the validating middleware. (What the clone
    /// of a generic validator holds is not statable here; the middleware's
    /// decisions are pinned by [`ValidateNamespaceMiddleware::allows`].)
    pub fn layer<S>(&self, inner: S) -> (r: ValidateNamespaceMiddleware<S, V>)
        ensures
            r.inner == inner,
    {
        ValidateNamespaceMiddleware { inner, validator: self.validator.clone() }
    }
}

/// The middleware: holds the inner service and the validator, and decides
/// per request whether the inner service may see it. The transport plumbing
/// around this decision (request objects, futures, readiness) lives with the
/// HTTP stack outside the library.
pub struct ValidateNamespaceMiddleware<S, V> {
    pub inner: S,
    pub validator: V,
}

impl<S, V: NamespaceValidator> ValidateNamespaceMiddleware<S, V> {
    /// The middleware's decision for a request path: forward to the inner
    /// service exactly when the path addresses a namespace route and the
    /// validator accepts the captured namespace; everything else is turned
    /// away as not found.
    pub fn allows(&self, path: &Vec<u8>) -> (r: bool)
        ensures
            r <==> (is_namespace_path(path@) && self.validator.spec_exists(namespace_of(path@)))
                || (is_namespace_key_path(path@) && self.validator.spec_exists(
                ns_key_namespace(path@),
            )),
    {
        match route(path) {
            RouteMatch::Namespace(ns) => self.validator.namespace_exists(&ns),
            RouteMatch::NamespaceKey(ns, _key) => self.validator.namespace_exists(&ns),
            _ => false,
        }
    }
}

/// When a separator stands at `i` behind a separator-free prefix, it is the
/// first one.
proof fn lemma_first_slash_at(s: Seq<u8>, i: int)
    requires
        0 <= i < s.len(),
        s[i] == SLASH,
        forall|j: int| 0 <= j < i ==> s[j] != SLASH,
    ensures
        first_slash(s) == i,
    decreases i,
{
    if i > 0 {
        assert(forall|j: int| 0 <= j < i - 1 ==> s.drop_first()[j] == s[j + 1]);
        lemma_first_slash_at(s.drop_first(), i - 1);
    }
}

/// A separator-free sequence has no first separator.
proof fn lemma_first_slash_none(s: Seq<u8>)
    requires
        no_slash(s),
    ensures
        first_slash(s) == -1,
    decreases s.len(),
{
    if s.len() > 0 {
        assert(forall|j: int| 0 <= j < s.drop_first().len() ==> s.drop_first()[j] == s[j + 1]);
        lemma_first_slash_none(s.drop_first());
    }
}

/// Does `a` begin with `p`?
fn starts_with(a: &Vec<u8>, p: &Vec<u8>) -> (r: bool)
    ensures
        r == (a@.len() >= p@.len() && a@.take(p@.len() as int) == p@),
{
    if a.len() < p.len() {
        return false;
    }
    let mut j: usize = 0;
    while j < p.len()
        invariant
            j <= p@.len(),
            p@.len() <= a@.len(),
            forall|l: int| 0 <= l < j ==> a@[l] == p@[l],
        decreases p@.len() - j,
    {
        if a[j] != p[j] {
            proof {
                assert(a@.take(p@.len() as int)[j as int] == a@[j as int]);
            }
            return false;
        }
        j += 1;
    }
    proof {
        assert(a@.take(p@.len() as int) =~= p@);
    }
    true
}

/// The bytes of `a` from `from` (inclusive) to `to` (exclusive), owned.
fn subvec(a: &Vec<u8>, from: usize, to: usize) -> (r: Vec<u8>)
    requires
        from <= to <= a@.len(),
    ensures
        r@ == a@.subrange(from as int, to as int),
{
    let mut r: Vec<u8> = Vec::new();
    let mut j: usize = from;
    while j < to
        invariant
            from <= j <= to <= a@.len(),
            r@ == a@.subrange(from as int, j as int),
        decreases to - j,
    {
        r.push(a[j]);
        proof {
            assert(a@.subrange(from as int, j as int + 1) =~= a@.subrange(
                from as int,
                j as int,
            ).push(a@[j as int]));
        }
        j += 1;
    }
    r
}

/// The position of the first separator in `v`, when there is one.
fn find_slash(v: &Vec<u8>) -> (r: Option<usize>)
    ensures
        r matches Some(i) ==> i < v@.len() && v@[i as int] == SLASH && first_slash(v@) == i as int,
        r is None ==> no_slash(v@) && first_slash(v@) == -1,
{
    let mut j: usize = 0;
    while j < v.len()
        invariant
            j <= v@.len(),
            forall|l: int| 0 <= l < j ==> v@[l] != SLASH,
        decreases v@.len() - j,
    {
        if v[j] == SLASH {
            proof {
                lemma_first_slash_at(v@, j as int);
            }
            return Some(j);
        }
        j += 1;
    }
    proof {
        lemma_first_slash_none(v@);
    }
    None
}

/// Does the segment of `v` starting at `at` equal `seg`?
fn segment_eq(v: &Vec<u8>, at: usize, seg: &Vec<u8>) -> (r: bool)
    requires
        at <= v@.len(),
        seg@.len() <= v@.len() - at,
    ensures
        r == (v@.subrange(at as int, at as int + seg@.len() as int) == seg@),
{
    let n: usize = v.len();
    let mut j: usize = 0;
    while j < seg.len()
        invariant
            j <= seg@.len(),
            at + seg@.len() <= v@.len(),
            v@.len() == n,
            forall|l: int| 0 <= l < j ==> v@[at + l] == seg@[l],
        decreases seg@.len() - j,
    {
        if v[at + j] != seg[j] {
            proof {
                assert(v@.subrange(at as int, at as int + seg@.len() as int)[j as int] == v@[at
                    + j]);
            }
            return false;
        }
        j += 1;
    }
    proof {
        assert(v@.subrange(at as int, at as int + seg@.len() as int) =~= seg@);
    }
    true
}

/// No separator in `v` at or after `from`?
fn no_slash_from(v: &Vec<u8>, from: usize) -> (r: bool)
    requires
        from <= v@.len(),
    ensures
        r == no_slash(v@.skip(from as int)),
{
    let mut j: usize = from;
    while j < v.len()
        invariant
            from <= j <= v@.len(),
            forall|l: int| 0 <= l < j - from ==> v@.skip(from as int)[l] != SLASH,
        decreases v@.len() - j,
    {
        if v[j] == SLASH {
            proof {
                assert(v@.skip(from as int)[j - from] == v@[j as int]);
            }
            return false;
        }
        proof {
            assert(v@.skip(from as int)[j - from] == v@[j as int]);
        }
        j += 1;
    }
    true
}

/// `a` then `b`, owned.
fn concat_bytes(a: &Vec<u8>, b: &Vec<u8>) -> (r: Vec<u8>)
    ensures
        r@ == a@ + b@,
{
    let mut r = clone_bytes(a);
    let mut j: usize = 0;
    while j < b.len()
        invariant
            j <= b@.len(),
            r@ == a@ + b@.take(j as int),
        decreases b@.len() - j,
    {
        r.push(b[j]);
        proof {
            assert(a@ + b@.take(j as int + 1) =~= (a@ + b@.take(j as int)).push(b@[j as int]));
        }
        j += 1;
    }
    proof {
        assert(a@ + b@.take(b@.len() as int) =~= a@ + b@);
    }
    r
}

/// The exec bytes of `"/health"`.
fn health_path_vec() -> (r: Vec<u8>)
    ensures
        r@ == health_path(),
{
    let mut r: Vec<u8> = Vec::new();
    r.push(47);
    r.push(104);
    r.push(101);
    r.push(97);
    r.push(108);
    r.push(116);
    r.push(104);
    proof {
        assert(r@ =~= health_path());
    }
    r
}

/// The exec bytes of `"/namespaces/"`.
fn ns_prefix_vec() -> (r: Vec<u8>)
    ensures
        r@ == ns_prefix(),
{
    let mut r: Vec<u8> = Vec::new();
    r.push(47);
    r.push(110);
    r.push(97);
    r.push(109);
    r.push(101);
    r.push(115);
    r.push(112);
    r.push(97);
    r.push(99);
    r.push(101);
    r.push(115);
    r.push(47);
    proof {
        assert(r@ =~= ns_prefix());
    }
    r
}

/// The exec bytes of `"/keys/"`.
fn keys_mid_vec() -> (r: Vec<u8>)
    ensures
        r@ == keys_mid(),
{
    let mut r: Vec<u8> = Vec::new();
    r.push(47);
    r.push(107);
    r.push(101);
    r.push(121);
    r.push(115);
    r.push(47);
    proof {
        assert(r@ =~= keys_mid());
    }
    r
}

/// The exec bytes of `"invalid"`.
fn invalid_vec() -> (r: Vec<u8>)
    ensures
        r@ == invalid_text(),
{
    let mut r: Vec<u8> = Vec::new();
    r.push(105);
    r.push(110);
    r.push(118);
    r.push(97);
    r.push(108);
    r.push(105);
    r.push(100);
    proof {
        assert(r@ =~= invalid_text());
    }
    r
}

/// The exec bytes of `"Namespace "`.
fn namespace_prefix_vec() -> (r: Vec<u8>)
    ensures
        r@ == namespace_prefix_text(),
{
    let mut r: Vec<u8> = Vec::new();
    r.push(78);
    r.push(97);
    r.push(109);
    r.push(101);
    r.push(115);
    r.push(112);
    r.push(97);
    r.push(99);
    r.push(101);
    r.push(32);
    proof {
        assert(r@ =~= namespace_prefix_text());
    }
    r
}

/// The exec bytes of `" key "`.
fn key_mid_vec() -> (r: Vec<u8>)
    ensures
        r@ == key_mid_text(),
{
    let mut r: Vec<u8> = Vec::new();
    r.push(32);
    r.push(107);
    r.push(101);
    r.push(121);
    r.push(32);
    proof {
        assert(r@ =~= key_mid_text());
    }
    r
}

} // verus!
