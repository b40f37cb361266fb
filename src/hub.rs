use std::collections::VecDeque;
use std::marker::PhantomData;

use vstd::prelude::*;

use crate::model::{lemma_dispatch_then_rest, HandleId, HubModel, LinkModel, RenderRequest};
use crate::msg_data::MsgData;

verus! {

/// The error of a send that needs a bound link, made on an unbound one.
#[derive(Clone, Copy, Debug, PartialEq, Eq, Structural)]
pub struct NotBound;

struct LinkState<M> {
    target: Option<usize>,
    pending: VecDeque<M>,
}

impl<M> View for LinkState<M> {
    type V = LinkModel<M>;

    closed spec fn view(&self) -> LinkModel<M> {
        LinkModel { target: self.target, pending: self.pending@ }
    }
}

/// The data cells and the links of one hosted value type.
///
/// A hub has an identity, given when it is made, and its handles carry it:
/// handles of hubs made with different identities never name each other's
/// cells or links, nor compare equal. A removed cell or link leaves an empty
/// slot, so the handles of the others stay valid.
pub struct Hub<T: MsgData> {
    id: u64,
    values: Vec<Option<T>>,
    links: Vec<Option<LinkState<T::Msg>>>,
    renders: Vec<usize>,
    render_log: Ghost<Seq<RenderRequest<T>>>,
}

impl<T: MsgData> View for Hub<T> {
    type V = HubModel<T>;

    closed spec fn view(&self) -> HubModel<T> {
        HubModel {
            id: self.id,
            values: self.values@,
            links: self.links@.map_values(
                |k: Option<LinkState<T::Msg>>|
                    match k {
                        Some(k) => Some(k@),
                        None => None,
                    },
            ),
            renders: self.render_log@,
        }
    }
}

impl<T: MsgData> Hub<T> {
    /// Every bound link names a live cell and holds nothing queued, and the
    /// render requests kept name cells of the hub.
    pub closed spec fn wf(&self) -> bool {
        &&& self@.wf()
        &&& self.renders@.len() == self.render_log@.len()
        &&& forall|i: int|
            0 <= i < self.renders@.len() ==> #[trigger] self.renders@[i] == self.render_log@[i].cell
    }

    /// A hub with identity `id` and no cells and no links.
    pub fn new(id: u64) -> (r: Self)
        ensures
            r@ == HubModel::<T>::empty(id),
            r.wf(),
    {
        let r = Hub {
            id,
            values: Vec::new(),
            links: Vec::new(),
            renders: Vec::new(),
            render_log: Ghost(Seq::empty()),
        };
        assert(r@.links =~= Seq::empty());
        r
    }

    /// Adds a data cell that holds `value`, and returns its handle.
    pub fn add_data(&mut self, value: T) -> (r: UseDataHandle<T>)
        requires
            old(self).wf(),
        ensures
            final(self)@ == old(self)@.add_data(value),
            r@ == (HandleId { hub: old(self)@.id, index: old(self)@.values.len() as usize }),
            final(self).wf(),
    {
        let index = self.values.len();
        self.values.push(Some(value));
        proof {
            assert(self@.links =~= old(self)@.links);
            assert forall|l: usize| #[trigger] self@.has_link(l) implies match self@.link(l).target {
                Some(c) => self@.has_data(c) && self@.link(l).pending.len() == 0,
                None => true,
            } by {
                assert(old(self)@.has_link(l));
            }
            assert forall|i: int| 0 <= i < self@.renders.len() implies #[trigger] self@.renders[i].cell
                < self@.values.len() by {
                assert(old(self)@.renders[i].cell < old(self)@.values.len());
            }
        }
        UseDataHandle { hub: self.id, index, marker: PhantomData }
    }

    /// Adds an unbound link with nothing queued, and returns its handle.
    pub fn add_link(&mut self) -> (r: UseLinkHandle<T>)
        requires
            old(self).wf(),
        ensures
            final(self)@ == old(self)@.add_link(),
            r@ == (HandleId { hub: old(self)@.id, index: old(self)@.links.len() as usize }),
            final(self).wf(),
    {
        let index = self.links.len();
        self.links.push(Some(LinkState { target: None, pending: VecDeque::new() }));
        proof {
            assert(self@.links =~= old(self)@.add_link().links);
            assert forall|l: usize| #[trigger] self@.has_link(l) implies match self@.link(l).target {
                Some(c) => self@.has_data(c) && self@.link(l).pending.len() == 0,
                None => true,
            } by {
                if l < index {
                    assert(old(self)@.has_link(l));
                }
            }
        }
        UseLinkHandle { hub: self.id, index, marker: PhantomData }
    }

    /// Whether `data` names a cell of this hub that was not removed.
    pub fn contains_data(&self, data: &UseDataHandle<T>) -> (r: bool)
        ensures
            r == self@.owns_data(data@),
    {
        data.hub == self.id && data.index < self.values.len() && self.values[data.index].is_some()
    }

    /// Whether `link` names a link of this hub that was not removed.
    pub fn contains_link(&self, link: &UseLinkHandle<T>) -> (r: bool)
        ensures
            r == self@.owns_link(link@),
    {
        link.hub == self.id && link.index < self.links.len() && self.links[link.index].is_some()
    }

    /// Hands out the cells that asked for a re-render of their owner since
    /// the last call, oldest first, and forgets them.
    pub fn take_render_requests(&mut self) -> (r: Vec<usize>)
        requires
            old(self).wf(),
        ensures
            r@ == old(self)@.renders.map_values(|q: RenderRequest<T>| q.cell),
            final(self)@ == old(self)@.clear_renders(),
            final(self).wf(),
    {
        let mut r: Vec<usize> = Vec::new();
        std::mem::swap(&mut r, &mut self.renders);
        self.render_log = Ghost(Seq::empty());
        proof {
            assert(r@ =~= old(self)@.renders.map_values(|q: RenderRequest<T>| q.cell));
            assert forall|k: usize| #[trigger] self@.has_link(k) implies match self@.link(k).target {
                Some(d) => self@.has_data(d) && self@.link(k).pending.len() == 0,
                None => true,
            } by {
                assert(old(self)@.has_link(k));
            }
        }
        r
    }

    /// Cell `c` takes `msg` and asks for one re-render of its owner.
    fn dispatch(&mut self, c: usize, msg: T::Msg)
        requires
            old(self).wf(),
            old(self)@.has_data(c),
        ensures
            final(self)@ == old(self)@.dispatch(c, msg),
            final(self).wf(),
    {
        match &mut self.values[c] {
            Some(v) => v.msg(msg),
            None => {},
        }
        self.renders.push(c);
        self.render_log = Ghost(
            self.render_log@.push(RenderRequest { cell: c, value: self.values@[c as int]->Some_0 }),
        );
        proof {
            let s = self@;
            let t = old(self)@.dispatch(c, msg);
            assert(s.values =~= t.values);
            assert(s.renders =~= t.renders);
            assert(s.links =~= t.links);
            assert forall|l: usize| #[trigger] s.has_link(l) implies match s.link(l).target {
                Some(d) => s.has_data(d) && s.link(l).pending.len() == 0,
                None => true,
            } by {
                assert(old(self)@.has_link(l));
            }
        }
    }

    /// Link `l` queues `msg`.
    fn enqueue(&mut self, l: usize, msg: T::Msg)
        requires
            old(self).wf(),
            old(self)@.has_link(l),
            !old(self)@.is_bound(l),
        ensures
            final(self)@ == old(self)@.send(l, msg),
            final(self).wf(),
    {
        match &mut self.links[l] {
            Some(link) => link.pending.push_back(msg),
            None => {},
        }
        proof {
            assert(self@.links =~= old(self)@.send(l, msg).links);
            assert forall|k: usize| #[trigger] self@.has_link(k) implies match self@.link(k).target {
                Some(d) => self@.has_data(d) && self@.link(k).pending.len() == 0,
                None => true,
            } by {
                assert(old(self)@.has_link(k));
            }
        }
    }

    /// Link `l` is bound to no cell.
    fn unbind_link(&mut self, l: usize)
        requires
            old(self).wf(),
            old(self)@.has_link(l),
        ensures
            final(self)@ == old(self)@.unbind(l),
            final(self).wf(),
    {
        match &mut self.links[l] {
            Some(link) => link.target = None,
            None => {},
        }
        proof {
            assert(self@.links =~= old(self)@.unbind(l).links);
            assert forall|k: usize| #[trigger] self@.has_link(k) implies match self@.link(k).target {
                Some(d) => self@.has_data(d) && self@.link(k).pending.len() == 0,
                None => true,
            } by {
                assert(old(self)@.has_link(k));
            }
        }
    }

    /// Cell `c` is removed, and every link bound to it is unbound.
    fn remove_data(&mut self, c: usize)
        requires
            old(self).wf(),
            old(self)@.has_data(c),
        ensures
            final(self)@ == old(self)@.remove_data(c),
            final(self).wf(),
    {
        let ghost target = old(self)@.remove_data(c);
        self.values.set(c, None);
        let mut i: usize = 0;
        while i < self.links.len()
            invariant
                i <= self.links@.len() == old(self).links@.len(),
                target == old(self)@.remove_data(c),
                self.id == old(self).id,
                self.values@ == target.values,
                self.renders == old(self).renders,
                self.render_log == old(self).render_log,
                forall|j: int| 0 <= j < i ==> #[trigger] self@.links[j] == target.links[j],
                forall|j: int| i <= j < self.links@.len() ==> #[trigger] self@.links[j] == old(self)@.links[j],
            decreases self.links@.len() - i,
        {
            let ghost before = self@;
            match &mut self.links[i] {
                Some(link) => {
                    if link.target == Some(c) {
                        link.target = None;
                    }
                },
                None => {},
            }
            proof {
                assert(before.links[i as int] == old(self)@.links[i as int]);
                assert(self@.links[i as int] == target.links[i as int]);
                assert forall|j: int| 0 <= j < self.links@.len() && j != i implies #[trigger] self@.links[j]
                    == before.links[j] by {}
            }
            i = i + 1;
        }
        proof {
            assert(self@.links =~= target.links);
            assert(self@ == target);
            assert forall|k: usize| #[trigger] self@.has_link(k) implies match self@.link(k).target {
                Some(d) => self@.has_data(d) && self@.link(k).pending.len() == 0,
                None => true,
            } by {
                assert(old(self)@.has_link(k));
            }
        }
    }

    /// Link `l` is removed, with what it had queued.
    fn remove_link(&mut self, l: usize)
        requires
            old(self).wf(),
            old(self)@.has_link(l),
        ensures
            final(self)@ == old(self)@.remove_link(l),
            final(self).wf(),
    {
        self.links.set(l, None);
        proof {
            assert(self@.links =~= old(self)@.remove_link(l).links);
            assert forall|k: usize| #[trigger] self@.has_link(k) implies match self@.link(k).target {
                Some(d) => self@.has_data(d) && self@.link(k).pending.len() == 0,
                None => true,
            } by {
                assert(old(self)@.has_link(k));
            }
        }
    }

    /// Link `l` is bound to cell `c` and hands it, oldest first, every
    /// message it had queued.
    fn bind_link(&mut self, l: usize, c: usize)
        requires
            old(self).wf(),
            old(self)@.has_link(l),
            old(self)@.has_data(c),
        ensures
            final(self)@ == old(self)@.bind(l, c),
            final(self).wf(),
    {
        let ghost s0 = self@;
        let mut queue: VecDeque<T::Msg> = VecDeque::new();
        match &mut self.links[l] {
            Some(link) => {
                std::mem::swap(&mut queue, &mut link.pending);
                link.target = Some(c);
            },
            None => {},
        }
        proof {
            let mid = HubModel {
                links: s0.links.update(
                    l as int,
                    Some(LinkModel { target: Some(c), pending: Seq::empty() }),
                ),
                ..s0
            };
            assert(self@.links =~= mid.links);
            assert(self@ == mid);
            assert(queue@ == s0.link(l).pending);
            assert forall|k: usize| #[trigger] self@.has_link(k) implies match self@.link(k).target {
                Some(d) => self@.has_data(d) && self@.link(k).pending.len() == 0,
                None => true,
            } by {
                assert(old(self)@.has_link(k));
            }
        }
        while queue.len() > 0
            invariant
                self.wf(),
                self@.has_data(c),
                self@.dispatch_all(c, queue@) == s0.bind(l, c),
            decreases queue.len(),
        {
            let ghost before = self@;
            let ghost rest = queue@;
            match queue.pop_front() {
                Some(m) => {
                    self.dispatch(c, m);
                    proof {
                        assert(rest =~= seq![m] + queue@);
                        lemma_dispatch_then_rest(before, c, m, queue@);
                    }
                },
                None => {},
            }
        }
        proof {
            let s = self@;
            let t = s.dispatch_all(c, queue@);
            assert(queue@ =~= Seq::<T::Msg>::empty());
            assert(s.values =~= t.values);
            assert(s.renders =~= t.renders);
        }
    }
}

/// Names a data cell of a [`Hub`].
pub struct UseDataHandle<T> {
    hub: u64,
    index: usize,
    marker: PhantomData<T>,
}

impl<T> View for UseDataHandle<T> {
    type V = HandleId;

    closed spec fn view(&self) -> HandleId {
        HandleId { hub: self.hub, index: self.index }
    }
}

/// Names a link of a [`Hub`].
pub struct UseLinkHandle<T> {
    hub: u64,
    index: usize,
    marker: PhantomData<T>,
}

impl<T> View for UseLinkHandle<T> {
    type V = HandleId;

    closed spec fn view(&self) -> HandleId {
        HandleId { hub: self.hub, index: self.index }
    }
}

impl<T> Clone for UseDataHandle<T> {
    fn clone(&self) -> (r: Self)
        ensures
            r@ == self@,
    {
        UseDataHandle { hub: self.hub, index: self.index, marker: PhantomData }
    }
}

impl<T> Copy for UseDataHandle<T> {}

impl<T> Clone for UseLinkHandle<T> {
    fn clone(&self) -> (r: Self)
        ensures
            r@ == self@,
    {
        UseLinkHandle { hub: self.hub, index: self.index, marker: PhantomData }
    }
}

impl<T> Copy for UseLinkHandle<T> {}

/// Two link handles are equal when they name the same link of the same hub.
impl<T> PartialEq for UseLinkHandle<T> {
    fn eq(&self, other: &Self) -> (r: bool) {
        self.hub == other.hub && self.index == other.index
    }
}

impl<T> vstd::std_specs::cmp::PartialEqSpecImpl for UseLinkHandle<T> {
    open spec fn obeys_eq_spec() -> bool {
        true
    }

    open spec fn eq_spec(&self, other: &Self) -> bool {
        self@ == other@
    }
}

impl<T> Eq for UseLinkHandle<T> {}

impl<T: MsgData> UseDataHandle<T> {
    /// Applies message `msg` to the cell's value, and has the cell ask once
    /// for a re-render of its owner.
    pub fn msg(&self, hub: &mut Hub<T>, msg: T::Msg)
        requires
            old(hub).wf(),
            old(hub)@.owns_data(self@),
        ensures
            final(hub)@ == old(hub)@.dispatch(self@.index, msg),
            final(hub).wf(),
    {
        hub.dispatch(self.index, msg);
    }

    /// The cell's current value. Reading asks for no re-render.
    pub fn current<'a>(&self, hub: &'a Hub<T>) -> (r: &'a T)
        requires
            hub@.owns_data(self@),
        ensures
            *r == hub@.value(self@.index),
    {
        hub.values[self.index].as_ref().unwrap()
    }

    /// Removes the cell, and unbinds every link bound to it. Its handle
    /// names nothing from now on.
    pub fn remove(&self, hub: &mut Hub<T>)
        requires
            old(hub).wf(),
            old(hub)@.owns_data(self@),
        ensures
            final(hub)@ == old(hub)@.remove_data(self@.index),
            final(hub).wf(),
    {
        hub.remove_data(self.index);
    }
}

impl<T: MsgData> UseLinkHandle<T> {
    /// Whether the link is bound to a cell.
    pub fn is_binded(&self, hub: &Hub<T>) -> (r: bool)
        requires
            hub@.owns_link(self@),
        ensures
            r == hub@.is_bound(self@.index),
    {
        hub.links[self.index].as_ref().unwrap().target.is_some()
    }

    /// Applies message `msg` to the bound cell and returns `Ok(())`; on an
    /// unbound link, changes nothing and returns `Err(NotBound)`.
    pub fn try_msg(&self, hub: &mut Hub<T>, msg: T::Msg) -> (r: Result<(), NotBound>)
        requires
            old(hub).wf(),
            old(hub)@.owns_link(self@),
        ensures
            r == (if old(hub)@.is_bound(self@.index) {
                Ok(())
            } else {
                Err(NotBound)
            }),
            final(hub)@ == old(hub)@.try_send(self@.index, msg),
            final(hub).wf(),
    {
        proof {
            assert(hub@.has_link(self.index));
        }
        match hub.links[self.index].as_ref().unwrap().target {
            Some(c) => {
                hub.dispatch(c, msg);
                Ok(())
            },
            None => Err(NotBound),
        }
    }

    /// Applies message `msg` to the bound cell; the link must be bound.
    pub fn msg(&self, hub: &mut Hub<T>, msg: T::Msg)
        requires
            old(hub).wf(),
            old(hub)@.owns_link(self@),
            old(hub)@.is_bound(self@.index),
        ensures
            final(hub)@ == old(hub)@.send(self@.index, msg),
            final(hub).wf(),
    {
        let r = self.try_msg(hub, msg);
        assert(r is Ok);
    }

    /// Applies message `msg` to the bound cell now, or, on an unbound link,
    /// queues it until the link is bound.
    pub fn msg_on_bind(&self, hub: &mut Hub<T>, msg: T::Msg)
        requires
            old(hub).wf(),
            old(hub)@.owns_link(self@),
        ensures
            final(hub)@ == old(hub)@.send(self@.index, msg),
            final(hub).wf(),
    {
        if self.is_binded(hub) {
            self.msg(hub, msg);
        } else {
            hub.enqueue(self.index, msg);
        }
    }

    /// Binds the link to the cell of `data`, whatever it was bound to before,
    /// and applies to that cell, oldest first, every message queued on the
    /// link; after each it asks once for a re-render of the cell's owner.
    pub fn bind(&self, hub: &mut Hub<T>, data: &UseDataHandle<T>)
        requires
            old(hub).wf(),
            old(hub)@.owns_link(self@),
            old(hub)@.owns_data(data@),
        ensures
            final(hub)@ == old(hub)@.bind(self@.index, data@.index),
            final(hub).wf(),
    {
        hub.bind_link(self.index, data.index);
    }

    /// Unbinds the link. Messages sent to it from now on are queued.
    pub fn unbind(&self, hub: &mut Hub<T>)
        requires
            old(hub).wf(),
            old(hub)@.owns_link(self@),
        ensures
            final(hub)@ == old(hub)@.unbind(self@.index),
            final(hub).wf(),
    {
        hub.unbind_link(self.index);
    }

    /// Removes the link, with what it had queued. Its handle names nothing
    /// from now on.
    pub fn remove(&self, hub: &mut Hub<T>)
        requires
            old(hub).wf(),
            old(hub)@.owns_link(self@),
        ensures
            final(hub)@ == old(hub)@.remove_link(self@.index),
            final(hub).wf(),
    {
        hub.remove_link(self.index);
    }
}

} // verus!
