use vstd::prelude::*;
use crate::aggregate::{AggView, RouteRecord, detail_view, insert_route_spec, join_spec};

verus! {

/// The detail of the last record in `rs` aimed at (stop `code`, service
/// `svc`), if any: the record whose write wins the join.
pub open spec fn last_detail(rs: Seq<RouteRecord>, code: Seq<char>, svc: Seq<char>) -> Option<
    crate::aggregate::DetailView,
>
    decreases rs.len(),
{
    if rs.len() == 0 {
        Option::None
    } else {
        let rest = last_detail(rs.drop_first(), code, svc);
        if rest is Some {
            rest
        } else if rs[0].bus_stop_code@ == code && rs[0].service_no@ == svc {
            Option::Some(detail_view(rs[0]))
        } else {
            Option::None
        }
    }
}

/// A winning write comes from an actual record in `rs`.
pub proof fn lemma_last_detail_witness(rs: Seq<RouteRecord>, code: Seq<char>, svc: Seq<char>)
    requires
        last_detail(rs, code, svc) is Some,
    ensures
        exists|k: int|
            0 <= k < rs.len() && #[trigger] rs[k].bus_stop_code@ == code && rs[k].service_no@
                == svc,
    decreases rs.len(),
{
    if last_detail(rs.drop_first(), code, svc) is Some {
        lemma_last_detail_witness(rs.drop_first(), code, svc);
        let k = choose|k: int|
            0 <= k < rs.drop_first().len() && #[trigger] rs.drop_first()[k].bus_stop_code@ == code
                && rs.drop_first()[k].service_no@ == svc;
        assert(rs[k + 1].bus_stop_code@ == code && rs[k + 1].service_no@ == svc);
    } else {
        assert(rs[0].bus_stop_code@ == code && rs[0].service_no@ == svc);
    }
}

/// The join, read pointwise: it neither adds nor removes stops, never
/// touches a stop's own attributes, and at each (stop, service) pair the
/// last matching record wins — or the pair keeps its old detail when no
/// record matches.
pub proof fn lemma_join_at(
    m: Map<Seq<char>, AggView>,
    rs: Seq<RouteRecord>,
    c: Seq<char>,
    v: Seq<char>,
)
    ensures
        join_spec(m, rs).contains_key(c) == m.contains_key(c),
        m.contains_key(c) ==> join_spec(m, rs)[c].stop == m[c].stop,
        m.contains_key(c) ==> (join_spec(m, rs)[c].services.contains_key(v) <==> (
        m[c].services.contains_key(v) || last_detail(rs, c, v) is Some)),
        m.contains_key(c) && (m[c].services.contains_key(v) || last_detail(rs, c, v) is Some)
            ==> join_spec(m, rs)[c].services[v] == (match last_detail(rs, c, v) {
            Option::Some(d) => d,
            Option::None => m[c].services[v],
        }),
    decreases rs.len(),
{
    if rs.len() > 0 {
        let r0 = rs[0];
        let m1 = insert_route_spec(m, r0.bus_stop_code@, r0.service_no@, detail_view(r0));
        lemma_join_at(m1, rs.drop_first(), c, v);
        assert(join_spec(m, rs) == join_spec(m1, rs.drop_first()));
        if m.contains_key(c) {
            if r0.bus_stop_code@ == c {
                assert(m1[c].stop == m[c].stop);
                if r0.service_no@ == v {
                    assert(m1[c].services == m[c].services.insert(v, detail_view(r0)));
                    assert(m1[c].services.contains_key(v));
                } else {
                    assert(m1[c].services.contains_key(v) == m[c].services.contains_key(v));
                    if m[c].services.contains_key(v) {
                        assert(m1[c].services[v] == m[c].services[v]);
                    }
                }
            } else {
                assert(m1.contains_key(c) && m1[c] == m[c]);
            }
        }
    }
}

/// Join idempotence: applying the join twice with the same route data
/// yields the same aggregate as applying it once — the last write per
/// (stop, service) pair wins both times.
pub proof fn lemma_join_idempotent(m: Map<Seq<char>, AggView>, rs: Seq<RouteRecord>)
    ensures
        join_spec(join_spec(m, rs), rs) == join_spec(m, rs),
{
    let j1 = join_spec(m, rs);
    let j2 = join_spec(j1, rs);
    assert forall|c: Seq<char>| #[trigger] j2.contains_key(c) == j1.contains_key(c) by {
        lemma_join_at(m, rs, c, c);
        lemma_join_at(j1, rs, c, c);
    }
    assert forall|c: Seq<char>| #[trigger] j2.contains_key(c) implies j2[c] == j1[c] by {
        lemma_join_at(m, rs, c, c);
        lemma_join_at(j1, rs, c, c);
        assert forall|v: Seq<char>|
            #[trigger] j2[c].services.contains_key(v) == j1[c].services.contains_key(v) && (
            j1[c].services.contains_key(v) ==> j2[c].services[v] == j1[c].services[v]) by {
            lemma_join_at(m, rs, c, v);
            lemma_join_at(j1, rs, c, v);
        }
        assert(j2[c].services =~= j1[c].services);
        assert(j2[c] =~= j1[c]);
    }
    assert(j2 =~= j1);
}

/// Orphan-route law: a route record whose stop code has no entry in the
/// table contributes nothing anywhere. The join raises no error, the
/// unknown code stays absent, and every service key that appears at a stop
/// was put there by some record aimed at exactly that stop.
pub proof fn lemma_orphan_route(m: Map<Seq<char>, AggView>, rs: Seq<RouteRecord>, c: Seq<char>)
    requires
        !m.contains_key(c),
    ensures
        !join_spec(m, rs).contains_key(c),
        forall|c2: Seq<char>, v: Seq<char>|
            m.contains_key(c2) && #[trigger] join_spec(m, rs)[c2].services.contains_key(v)
                && !m[c2].services.contains_key(v) ==> exists|k: int|
                0 <= k < rs.len() && #[trigger] rs[k].bus_stop_code@ == c2 && rs[k].service_no@
                    == v,
{
    lemma_join_at(m, rs, c, c);
    assert forall|c2: Seq<char>, v: Seq<char>|
        m.contains_key(c2) && #[trigger] join_spec(m, rs)[c2].services.contains_key(v)
            && !m[c2].services.contains_key(v) implies exists|k: int|
        0 <= k < rs.len() && #[trigger] rs[k].bus_stop_code@ == c2 && rs[k].service_no@ == v by {
        lemma_join_at(m, rs, c2, v);
        lemma_last_detail_witness(rs, c2, v);
    }
}

} // verus!
