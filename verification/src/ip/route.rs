//! The routing table: insertion, per-interface removal, and
//! longest-prefix lookup.

use vstd::prelude::*;
use crate::ip::{spec_addr_value, spec_mask, Addr};
use crate::stack::NetStack;

verus! {

/// One route: destination network under its mask, an optional nexthop
/// gateway, and the egress device.
#[derive(Debug, Clone, Copy)]
pub struct Route {
    pub network: Addr,
    pub netmask: Addr,
    pub nexthop: Option<Addr>,
    pub interface: usize,
}

/// Whether `r` can carry traffic for `dst`, within `scope` when one is
/// given.
pub open spec fn route_matches(r: Route, scope: Option<usize>, dst: Seq<u8>) -> bool {
    &&& spec_mask(dst, r.netmask@) == r.network@
    &&& (scope matches Some(d) ==> r.interface == d)
}

/// Append a route to the table.
pub fn add(stack: &mut NetStack, route: Route)
    requires
        old(stack).wf(),
        old(stack).dev_has_interface(route.interface as int),
    ensures
        final(stack).wf(),
        final(stack).routes@ == old(stack).routes@.push(route),
        *final(stack) == (NetStack { routes: final(stack).routes, ..*old(stack) }),
{
    stack.routes.push(route);
}

/// Remove every route that egresses through device `dev`.
pub fn delete(stack: &mut NetStack, dev: usize)
    requires
        old(stack).wf(),
    ensures
        final(stack).wf(),
        final(stack).routes@ == old(stack).routes@.filter(|r: Route| r.interface != dev),
        *final(stack) == (NetStack { routes: final(stack).routes, ..*old(stack) }),
{
    let ghost orig = stack.routes@;
    let mut kept: Vec<Route> = Vec::new();
    let n = stack.routes.len();
    let mut i: usize = 0;
    proof {
        assert(orig.take(0) =~= Seq::<Route>::empty());
        reveal_with_fuel(Seq::filter, 2);
        assert(orig.take(0).filter(|r: Route| r.interface != dev) =~= Seq::<Route>::empty());
    }
    while i < n
        invariant
            n == stack.routes@.len(),
            stack.routes@ == orig,
            i <= n,
            kept@ == orig.take(i as int).filter(|r: Route| r.interface != dev),
            stack.devices@ == old(stack).devices@,
            forall|k: int|
                0 <= k < orig.len() ==> old(stack).dev_has_interface(
                    (#[trigger] orig[k]).interface as int,
                ),
            forall|k: int|
                0 <= k < kept@.len() ==> old(stack).dev_has_interface(
                    (#[trigger] kept@[k]).interface as int,
                ),
        decreases n - i,
    {
        let r = stack.routes[i];
        proof {
            let pred = |r: Route| r.interface != dev;
            let t = orig.take(i + 1);
            assert(t.drop_last() =~= orig.take(i as int));
            assert(t.last() == orig[i as int]);
            reveal_with_fuel(Seq::filter, 2);
            if pred(orig[i as int]) {
                assert(t.filter(pred) =~= t.drop_last().filter(pred).push(orig[i as int]));
            } else {
                assert(t.filter(pred) =~= t.drop_last().filter(pred));
            }
        }
        if r.interface != dev {
            kept.push(r);
        }
        i = i + 1;
    }
    proof {
        assert(orig.take(n as int) =~= orig);
    }
    stack.routes = kept;
}

/// The best index among the first `n` routes: a matching route with the
/// largest netmask, the earliest such when tied.
pub open spec fn lookup_upto(routes: Seq<Route>, scope: Option<usize>, dst: Seq<u8>, n: int) -> Option<
    int,
>
    decreases n,
{
    if n <= 0 {
        None
    } else {
        let prev = lookup_upto(routes, scope, dst, n - 1);
        if !route_matches(routes[n - 1], scope, dst) {
            prev
        } else {
            match prev {
                None => Some(n - 1),
                Some(b) => {
                    if spec_addr_value(routes[b].netmask@) < spec_addr_value(
                        routes[n - 1].netmask@,
                    ) {
                        Some(n - 1)
                    } else {
                        Some(b)
                    }
                },
            }
        }
    }
}

/// What `lookup` returns on the whole table.
pub open spec fn spec_lookup_route(routes: Seq<Route>, scope: Option<usize>, dst: Seq<u8>) -> Option<
    Route,
> {
    match lookup_upto(routes, scope, dst, routes.len() as int) {
        None => None,
        Some(i) => Some(routes[i]),
    }
}

/// The best index is a matching route that no other match beats.
pub proof fn lemma_lookup_upto(routes: Seq<Route>, scope: Option<usize>, dst: Seq<u8>, n: int)
    requires
        n <= routes.len(),
    ensures
        lookup_upto(routes, scope, dst, n) matches Some(b) ==> 0 <= b < n && route_matches(
            routes[b],
            scope,
            dst,
        ) && (forall|j: int|
            0 <= j < n && route_matches(#[trigger] routes[j], scope, dst) ==> spec_addr_value(
                routes[j].netmask@,
            ) <= spec_addr_value(routes[b].netmask@)) && (forall|j: int|
            0 <= j < b && route_matches(#[trigger] routes[j], scope, dst) ==> spec_addr_value(
                routes[j].netmask@,
            ) < spec_addr_value(routes[b].netmask@)),
        lookup_upto(routes, scope, dst, n) is None ==> forall|j: int|
            0 <= j < n ==> !route_matches(#[trigger] routes[j], scope, dst),
    decreases n,
{
    if n > 0 {
        lemma_lookup_upto(routes, scope, dst, n - 1);
    }
}

/// Longest-prefix lookup: among the routes matching `dst` (and `scope`,
/// when given), the one with the numerically largest netmask; ties go to
/// the earliest entry.
pub fn lookup(stack: &NetStack, interface: Option<usize>, dst: Addr) -> (r: Option<Route>)
    ensures
        r == spec_lookup_route(stack.routes@, interface, dst@),
        r matches Some(route) ==> route_matches(route, interface, dst@) && (forall|j: int|
            0 <= j < stack.routes@.len() && route_matches(
                #[trigger] stack.routes@[j],
                interface,
                dst@,
            ) ==> spec_addr_value(stack.routes@[j].netmask@) <= spec_addr_value(route.netmask@))
            && (exists|i: int|
            0 <= i < stack.routes@.len() && stack.routes@[i] == route && (forall|j: int|
                0 <= j < i && route_matches(#[trigger] stack.routes@[j], interface, dst@)
                    ==> spec_addr_value(stack.routes@[j].netmask@) < spec_addr_value(
                    route.netmask@,
                ))),
        r is None ==> forall|j: int|
            0 <= j < stack.routes@.len() ==> !route_matches(
                #[trigger] stack.routes@[j],
                interface,
                dst@,
            ),
{
    let n = stack.routes.len();
    let mut best: Option<usize> = None;
    let mut i: usize = 0;
    while i < n
        invariant
            n == stack.routes@.len(),
            i <= n,
            best matches Some(b) ==> lookup_upto(stack.routes@, interface, dst@, i as int)
                == Some(b as int) && b < i,
            best is None ==> lookup_upto(stack.routes@, interface, dst@, i as int) is None,
        decreases n - i,
    {
        let route = stack.routes[i];
        let scope_ok = match interface {
            Some(d) => route.interface == d,
            None => true,
        };
        if scope_ok && dst.apply_mask(&route.netmask) == route.network {
            match best {
                None => {
                    best = Some(i);
                },
                Some(b) => {
                    if stack.routes[b].netmask.value() < route.netmask.value() {
                        best = Some(i);
                    }
                },
            }
        }
        i = i + 1;
    }
    proof {
        lemma_lookup_upto(stack.routes@, interface, dst@, n as int);
    }
    match best {
        Some(b) => Some(stack.routes[b]),
        None => None,
    }
}

} // verus!
