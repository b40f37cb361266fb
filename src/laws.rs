use vstd::prelude::*;

use crate::model::{lemma_dispatch_then_rest, HandleId, HubModel, LinkModel, RenderRequest};
use crate::msg_data::{applied_all, MsgData};

verus! {

/// Each call `(l, m)` of `calls`, in order, has link `l` send `m`.
pub open spec fn send_each<T: MsgData>(s: HubModel<T>, calls: Seq<(usize, T::Msg)>) -> HubModel<T>
    decreases calls.len(),
{
    if calls.len() == 0 {
        s
    } else {
        send_each(s.send(calls[0].0, calls[0].1), calls.drop_first())
    }
}

/// The messages of `calls`, in order.
pub open spec fn messages_of<M>(calls: Seq<(usize, M)>) -> Seq<M> {
    calls.map_values(|call: (usize, M)| call.1)
}

proof fn lemma_applied_all_concat<T: MsgData>(v: T, a: Seq<T::Msg>, b: Seq<T::Msg>)
    ensures
        applied_all(applied_all(v, a), b) == applied_all(v, a + b),
    decreases a.len(),
{
    if a.len() > 0 {
        lemma_applied_all_concat(v.applied(a[0]), a.drop_first(), b);
        assert((a + b).drop_first() =~= a.drop_first() + b);
    } else {
        assert(a + b =~= b);
    }
}

proof fn lemma_dispatch_none<T: MsgData>(s: HubModel<T>, c: usize)
    requires
        s.has_data(c),
    ensures
        s.dispatch_all(c, Seq::empty()) == s,
{
    let t = s.dispatch_all(c, Seq::empty());
    assert(t.values =~= s.values);
    assert(t.renders =~= s.renders);
}

proof fn lemma_dispatch_all_concat<T: MsgData>(
    s: HubModel<T>,
    c: usize,
    a: Seq<T::Msg>,
    b: Seq<T::Msg>,
)
    requires
        s.has_data(c),
    ensures
        s.dispatch_all(c, a).dispatch_all(c, b) == s.dispatch_all(c, a + b),
{
    let v = s.value(c);
    lemma_applied_all_concat(v, a, b);
    let t = s.dispatch_all(c, a).dispatch_all(c, b);
    let u = s.dispatch_all(c, a + b);
    assert(t.values =~= u.values);
    let base = s.renders.len();
    assert forall|i: int| 0 <= i < t.renders.len() implies t.renders[i] == u.renders[i] by {
        if base <= i < base + a.len() {
            assert((a + b).take(i - base + 1) =~= a.take(i - base + 1));
        } else if i >= base + a.len() {
            let k = i - base - a.len();
            assert((a + b).take(a.len() + k + 1) =~= a + b.take(k + 1));
            lemma_applied_all_concat(v, a, b.take(k + 1));
        }
    }
    assert(t.renders =~= u.renders);
}

proof fn lemma_send_all_unbound<T: MsgData>(s: HubModel<T>, l: usize, msgs: Seq<T::Msg>)
    requires
        s.has_link(l),
        !s.is_bound(l),
    ensures
        s.send_all(l, msgs) == (HubModel {
            links: s.links.update(
                l as int,
                Some(LinkModel { target: None, pending: s.link(l).pending + msgs }),
            ),
            ..s
        }),
    decreases msgs.len(),
{
    if msgs.len() == 0 {
        assert(s.link(l).pending + msgs =~= s.link(l).pending);
        assert(s.links.update(
            l as int,
            Some(LinkModel { target: None, pending: s.link(l).pending + msgs }),
        ) =~= s.links);
    } else {
        let t = s.send(l, msgs[0]);
        lemma_send_all_unbound(t, l, msgs.drop_first());
        assert(t.link(l).pending + msgs.drop_first() =~= s.link(l).pending + msgs);
        assert(t.links.update(
            l as int,
            Some(LinkModel { target: None, pending: t.link(l).pending + msgs.drop_first() }),
        ) =~= s.links.update(
            l as int,
            Some(LinkModel { target: None, pending: s.link(l).pending + msgs }),
        ));
    }
}

proof fn lemma_send_all_bound<T: MsgData>(s: HubModel<T>, l: usize, c: usize, msgs: Seq<T::Msg>)
    requires
        s.has_link(l),
        s.has_data(c),
        s.link(l).target == Some(c),
    ensures
        s.send_all(l, msgs) == s.dispatch_all(c, msgs),
    decreases msgs.len(),
{
    if msgs.len() == 0 {
        lemma_dispatch_none(s, c);
    } else {
        let t = s.send(l, msgs[0]);
        lemma_send_all_bound(t, l, c, msgs.drop_first());
        lemma_dispatch_then_rest(s, c, msgs[0], msgs.drop_first());
        assert(seq![msgs[0]] + msgs.drop_first() =~= msgs);
    }
}

/// Messages sent to an unbound link reach the cell it is then bound to, in
/// the order they were sent: binding after the sends is binding first and
/// applying the messages directly, so the cell's value is the one the
/// messages give when applied one by one, after what was queued before.
pub proof fn lemma_queued_then_bound<T: MsgData>(
    s: HubModel<T>,
    l: usize,
    c: usize,
    msgs: Seq<T::Msg>,
)
    requires
        s.wf(),
        s.has_link(l),
        s.has_data(c),
        !s.is_bound(l),
    ensures
        s.send_all(l, msgs).bind(l, c) == s.bind(l, c).dispatch_all(c, msgs),
        s.send_all(l, msgs).bind(l, c).value(c) == applied_all(
            s.value(c),
            s.link(l).pending + msgs,
        ),
        s.link(l).pending.len() == 0 ==> s.send_all(l, msgs).bind(l, c).value(c) == applied_all(
            s.value(c),
            msgs,
        ),
{
    lemma_send_all_unbound(s, l, msgs);
    let pending = s.link(l).pending;
    let queued = s.send_all(l, msgs);
    let bound = HubModel {
        links: s.links.update(l as int, Some(LinkModel { target: Some(c), pending: Seq::empty() })),
        ..s
    };
    assert(queued.links.update(l as int, Some(LinkModel { target: Some(c), pending: Seq::empty() }))
        =~= bound.links);
    lemma_dispatch_all_concat(bound, c, pending, msgs);
    if pending.len() == 0 {
        assert(pending + msgs =~= msgs);
    }
}

/// Binding hands the queued messages to the cell one at a time: the `k`-th
/// re-render request that `bind` makes comes after the `k`-th queued message
/// and carries the value after the first `k` of them.
pub proof fn lemma_bind_renders_interleaved<T: MsgData>(s: HubModel<T>, l: usize, c: usize, k: int)
    requires
        s.wf(),
        s.has_link(l),
        s.has_data(c),
        0 <= k < s.link(l).pending.len(),
    ensures
        s.bind(l, c).renders.len() == s.renders.len() + s.link(l).pending.len(),
        s.bind(l, c).renders[s.renders.len() + k] == (RenderRequest {
            cell: c,
            value: applied_all(s.value(c), s.link(l).pending.take(k + 1)),
        }),
{
}

/// Sends through links bound to one cell, in whatever order the calls come,
/// apply their messages to that cell in call order, each with one re-render
/// request, and change nothing else.
pub proof fn lemma_bound_sends_in_order<T: MsgData>(
    s: HubModel<T>,
    c: usize,
    calls: Seq<(usize, T::Msg)>,
)
    requires
        s.has_data(c),
        forall|i: int|
            0 <= i < calls.len() ==> s.has_link(#[trigger] calls[i].0) && s.link(calls[i].0).target
                == Some(c),
    ensures
        send_each(s, calls) == s.dispatch_all(c, messages_of(calls)),
        send_each(s, calls).value(c) == applied_all(s.value(c), messages_of(calls)),
    decreases calls.len(),
{
    if calls.len() == 0 {
        lemma_dispatch_none(s, c);
        assert(messages_of(calls) =~= Seq::<T::Msg>::empty());
    } else {
        let m = calls[0].1;
        let t = s.send(calls[0].0, m);
        let rest = calls.drop_first();
        assert forall|i: int| 0 <= i < rest.len() implies t.has_link(#[trigger] rest[i].0)
            && t.link(rest[i].0).target == Some(c) by {
            assert(rest[i] == calls[i + 1]);
        }
        lemma_bound_sends_in_order(t, c, rest);
        lemma_dispatch_then_rest(s, c, m, messages_of(rest));
        assert(seq![m] + messages_of(rest) =~= messages_of(calls));
    }
}

/// A link is unbound when created and after `unbind`, and bound after
/// `bind`.
pub proof fn lemma_bound_status<T: MsgData>(s: HubModel<T>, l: usize, c: usize)
    requires
        s.wf(),
        s.has_link(l),
        s.has_data(c),
        s.links.len() <= usize::MAX,
    ensures
        !s.add_link().is_bound(s.links.len() as usize),
        s.bind(l, c).is_bound(l),
        !s.unbind(l).is_bound(l),
{
}

/// A new link differs from every link made before it, by this hub or by a
/// hub of another identity.
pub proof fn lemma_fresh_link_is_new<T: MsgData>(s: HubModel<T>, h: HandleId)
    requires
        s.links.len() <= usize::MAX,
        h.hub != s.id || h.index < s.links.len(),
    ensures
        h != (HandleId { hub: s.id, index: s.links.len() as usize }),
{
}

/// Once a cell is removed, no link is bound to it and the hub stays
/// well formed.
pub proof fn lemma_removed_cell_unreachable<T: MsgData>(s: HubModel<T>, c: usize)
    requires
        s.wf(),
        s.has_data(c),
    ensures
        s.remove_data(c).wf(),
        forall|l: usize| #[trigger] s.remove_data(c).has_link(l) ==> s.remove_data(c).link(l).target != Some(c),
{
    let t = s.remove_data(c);
    assert forall|k: usize| #[trigger] t.has_link(k) implies match t.link(k).target {
        Some(d) => t.has_data(d) && t.link(k).pending.len() == 0,
        None => true,
    } by {
        assert(s.has_link(k));
    }
}

/// After a bound link is unbound and bound to another cell, what it sends,
/// before and after the new binding, reaches the new cell and never the old
/// one; while it is unbound no cell changes.
pub proof fn lemma_rebind_retargets<T: MsgData>(
    s: HubModel<T>,
    l: usize,
    old_cell: usize,
    new_cell: usize,
    queued: Seq<T::Msg>,
    later: Seq<T::Msg>,
)
    requires
        s.wf(),
        s.has_link(l),
        s.link(l).target == Some(old_cell),
        s.has_data(new_cell),
        old_cell != new_cell,
    ensures
        s.unbind(l).send_all(l, queued).values == s.values,
        s.unbind(l).send_all(l, queued).bind(l, new_cell).send_all(l, later).values[old_cell as int]
            == s.values[old_cell as int],
        s.unbind(l).send_all(l, queued).bind(l, new_cell).send_all(l, later).value(new_cell)
            == applied_all(s.value(new_cell), queued + later),
        s.unbind(l).send_all(l, queued).bind(l, new_cell).send_all(l, later).renders.len()
            == s.renders.len() + queued.len() + later.len(),
        forall|i: int|
            0 <= i < s.renders.len() ==> #[trigger] s.unbind(l).send_all(l, queued).bind(
                l,
                new_cell,
            ).send_all(l, later).renders[i] == s.renders[i],
        forall|i: int|
            s.renders.len() <= i < s.renders.len() + queued.len() + later.len()
                ==> #[trigger] s.unbind(l).send_all(l, queued).bind(l, new_cell).send_all(
                l,
                later,
            ).renders[i].cell == new_cell,
{
    assert(s.has_link(l));
    assert(s.link(l).pending =~= Seq::<T::Msg>::empty());
    let u = s.unbind(l);
    assert(u.links =~= s.links.update(l as int, Some(LinkModel { target: None, pending: Seq::empty() })));
    assert(u.wf()) by {
        assert forall|k: usize| #[trigger] u.has_link(k) implies match u.link(k).target {
            Some(d) => u.has_data(d) && u.link(k).pending.len() == 0,
            None => true,
        } by {
            assert(s.has_link(k));
        }
    }
    lemma_send_all_unbound(u, l, queued);
    lemma_queued_then_bound(u, l, new_cell, queued);
    let b = u.send_all(l, queued).bind(l, new_cell);
    let bb = u.bind(l, new_cell);
    lemma_dispatch_none(
        HubModel {
            links: u.links.update(
                l as int,
                Some(LinkModel { target: Some(new_cell), pending: Seq::empty() }),
            ),
            ..u
        },
        new_cell,
    );
    lemma_send_all_bound(b, l, new_cell, later);
    lemma_dispatch_all_concat(bb, new_cell, queued, later);
    assert(u.link(l).pending =~= Seq::<T::Msg>::empty());
}

} // verus!
