use vstd::prelude::*;

use crate::msg_data::{applied_all, MsgData};

verus! {

/// What a handle names: a slot of the hub whose identity is `hub`.
pub struct HandleId {
    pub hub: u64,
    pub index: usize,
}

/// What a link is, as far as its behaviour goes: the cell it is bound to, if
/// any, and the messages that wait for it to be bound.
pub struct LinkModel<M> {
    pub target: Option<usize>,
    pub pending: Seq<M>,
}

impl<M> LinkModel<M> {
    /// A link as it is created: unbound, with nothing queued.
    pub open spec fn fresh() -> Self {
        LinkModel { target: None, pending: Seq::empty() }
    }

    /// The link after cell `c` is removed: unbound if it was bound to `c`.
    pub open spec fn released_from(self, c: usize) -> Self {
        if self.target == Some(c) {
            LinkModel { target: None, pending: self.pending }
        } else {
            self
        }
    }
}

/// A request for a re-render of the owner of `cell`, with the value the cell
/// held when the request was made.
pub struct RenderRequest<T> {
    pub cell: usize,
    pub value: T,
}

/// The state of a hub: its identity, the slot of each data cell and of each
/// link (`None` once removed), and the re-render requests, oldest first.
pub struct HubModel<T: MsgData> {
    pub id: u64,
    pub values: Seq<Option<T>>,
    pub links: Seq<Option<LinkModel<T::Msg>>>,
    pub renders: Seq<RenderRequest<T>>,
}

impl<T: MsgData> HubModel<T> {
    /// A hub with identity `id` and no cells, links or render requests.
    pub open spec fn empty(id: u64) -> Self {
        HubModel { id, values: Seq::empty(), links: Seq::empty(), renders: Seq::empty() }
    }

    pub open spec fn has_data(self, c: usize) -> bool {
        c < self.values.len() && self.values[c as int] is Some
    }

    pub open spec fn has_link(self, l: usize) -> bool {
        l < self.links.len() && self.links[l as int] is Some
    }

    /// The handle names a cell of this hub that was not removed.
    pub open spec fn owns_data(self, h: HandleId) -> bool {
        h.hub == self.id && self.has_data(h.index)
    }

    /// The handle names a link of this hub that was not removed.
    pub open spec fn owns_link(self, h: HandleId) -> bool {
        h.hub == self.id && self.has_link(h.index)
    }

    /// The value of cell `c`.
    pub open spec fn value(self, c: usize) -> T {
        self.values[c as int]->Some_0
    }

    /// Link `l`.
    pub open spec fn link(self, l: usize) -> LinkModel<T::Msg> {
        self.links[l as int]->Some_0
    }

    pub open spec fn is_bound(self, l: usize) -> bool {
        self.link(l).target is Some
    }

    /// Every bound link names a live cell and holds nothing queued, and every
    /// render request names a cell slot of the hub.
    pub open spec fn wf(self) -> bool {
        &&& forall|l: usize| #[trigger] self.has_link(l) ==> match self.link(l).target {
            Some(c) => self.has_data(c) && self.link(l).pending.len() == 0,
            None => true,
        }
        &&& forall|i: int|
            0 <= i < self.renders.len() ==> #[trigger] self.renders[i].cell < self.values.len()
    }

    /// A new cell holding `value`; its index is the former number of cells.
    pub open spec fn add_data(self, value: T) -> Self {
        HubModel { values: self.values.push(Some(value)), ..self }
    }

    /// A new, unbound link; its index is the former number of links.
    pub open spec fn add_link(self) -> Self {
        HubModel { links: self.links.push(Some(LinkModel::fresh())), ..self }
    }

    /// Cell `c` is removed, and every link bound to it is unbound.
    pub open spec fn remove_data(self, c: usize) -> Self {
        HubModel {
            values: self.values.update(c as int, None),
            links: self.links.map_values(
                |k: Option<LinkModel<T::Msg>>|
                    match k {
                        Some(k) => Some(k.released_from(c)),
                        None => None,
                    },
            ),
            ..self
        }
    }

    /// Link `l` is removed, with what it had queued.
    pub open spec fn remove_link(self, l: usize) -> Self {
        HubModel { links: self.links.update(l as int, None), ..self }
    }

    /// Cell `c` takes `msg` and asks once for a re-render of its owner.
    pub open spec fn dispatch(self, c: usize, msg: T::Msg) -> Self {
        let v = self.value(c).applied(msg);
        HubModel {
            values: self.values.update(c as int, Some(v)),
            renders: self.renders.push(RenderRequest { cell: c, value: v }),
            ..self
        }
    }

    /// Cell `c` takes `msgs` in order; after the `k`-th message it asks once
    /// for a re-render, and the request carries the value after the first
    /// `k` messages.
    pub open spec fn dispatch_all(self, c: usize, msgs: Seq<T::Msg>) -> Self {
        HubModel {
            values: self.values.update(c as int, Some(applied_all(self.value(c), msgs))),
            renders: self.renders + Seq::new(
                msgs.len(),
                |k: int| RenderRequest { cell: c, value: applied_all(self.value(c), msgs.take(k + 1)) },
            ),
            ..self
        }
    }

    /// Link `l` hands `msg` to its cell if it is bound; else nothing happens.
    pub open spec fn try_send(self, l: usize, msg: T::Msg) -> Self {
        match self.link(l).target {
            Some(c) => self.dispatch(c, msg),
            None => self,
        }
    }

    /// Link `l` hands `msg` to its cell if it is bound; else it queues `msg`.
    pub open spec fn send(self, l: usize, msg: T::Msg) -> Self {
        match self.link(l).target {
            Some(c) => self.dispatch(c, msg),
            None => HubModel {
                links: self.links.update(
                    l as int,
                    Some(LinkModel { target: None, pending: self.link(l).pending.push(msg) }),
                ),
                ..self
            },
        }
    }

    /// Link `l` sends `msgs`, one after another.
    pub open spec fn send_all(self, l: usize, msgs: Seq<T::Msg>) -> Self
        decreases msgs.len(),
    {
        if msgs.len() == 0 {
            self
        } else {
            self.send(l, msgs[0]).send_all(l, msgs.drop_first())
        }
    }

    /// Link `l` is bound to cell `c`, whatever it was bound to before, and
    /// hands it what it had queued, in order.
    pub open spec fn bind(self, l: usize, c: usize) -> Self {
        HubModel {
            links: self.links.update(
                l as int,
                Some(LinkModel { target: Some(c), pending: Seq::empty() }),
            ),
            ..self
        }.dispatch_all(c, self.link(l).pending)
    }

    /// Link `l` is bound to no cell; what it had queued stays queued.
    pub open spec fn unbind(self, l: usize) -> Self {
        HubModel {
            links: self.links.update(
                l as int,
                Some(LinkModel { target: None, pending: self.link(l).pending }),
            ),
            ..self
        }
    }

    /// The render requests are handed out and forgotten.
    pub open spec fn clear_renders(self) -> Self {
        HubModel { renders: Seq::empty(), ..self }
    }
}

/// Applying one message and then the rest is applying them all.
pub proof fn lemma_applied_all_first<T: MsgData>(v: T, m: T::Msg, rest: Seq<T::Msg>, k: int)
    requires
        0 <= k <= rest.len(),
    ensures
        applied_all(v, (seq![m] + rest).take(k + 1)) == applied_all(v.applied(m), rest.take(k)),
{
    let s = (seq![m] + rest).take(k + 1);
    assert(s.len() > 0);
    assert(s[0] == m);
    assert(s.drop_first() =~= rest.take(k));
}

/// Dispatching one message and then the rest is dispatching them all.
pub proof fn lemma_dispatch_then_rest<T: MsgData>(
    s: HubModel<T>,
    c: usize,
    m: T::Msg,
    rest: Seq<T::Msg>,
)
    requires
        s.has_data(c),
    ensures
        s.dispatch(c, m).dispatch_all(c, rest) == s.dispatch_all(c, seq![m] + rest),
{
    let all = seq![m] + rest;
    let v = s.value(c);
    assert(all.drop_first() =~= rest);
    lemma_applied_all_first(v, m, rest, rest.len() as int);
    assert(all.take(all.len() as int) =~= all);
    assert(rest.take(rest.len() as int) =~= rest);
    let a = s.dispatch(c, m).dispatch_all(c, rest);
    let b = s.dispatch_all(c, all);
    assert(a.values =~= b.values);
    assert forall|i: int| 0 <= i < a.renders.len() implies a.renders[i] == b.renders[i] by {
        if i == s.renders.len() {
            lemma_applied_all_first(v, m, rest, 0);
            assert(rest.take(0) =~= Seq::<T::Msg>::empty());
        } else if i > s.renders.len() {
            lemma_applied_all_first(v, m, rest, i - s.renders.len());
        }
    }
    assert(a.renders =~= b.renders);
}

} // verus!
