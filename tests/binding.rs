use data_link::{Hub, MsgData, NotBound};

#[derive(Debug, PartialEq)]
struct Num(i64);

enum NumMsg {
    Inc,
    Dec,
}

impl MsgData for Num {
    type Msg = NumMsg;

    fn applied(self, msg: NumMsg) -> Self {
        match msg {
            NumMsg::Inc => Num(self.0 + 1),
            NumMsg::Dec => Num(self.0 - 1),
        }
    }

    fn msg(&mut self, msg: NumMsg) {
        match msg {
            NumMsg::Inc => self.0 += 1,
            NumMsg::Dec => self.0 -= 1,
        }
    }
}

/// A value on which the order of messages shows.
#[derive(Debug, PartialEq)]
struct Items(Vec<u32>);

enum ItemsMsg {
    Push(u32),
    Clear,
}

impl MsgData for Items {
    type Msg = ItemsMsg;

    fn applied(self, msg: ItemsMsg) -> Self {
        let mut items = self.0;
        match msg {
            ItemsMsg::Push(x) => items.push(x),
            ItemsMsg::Clear => items.clear(),
        }
        Items(items)
    }

    fn msg(&mut self, msg: ItemsMsg) {
        match msg {
            ItemsMsg::Push(x) => self.0.push(x),
            ItemsMsg::Clear => self.0.clear(),
        }
    }
}

#[test]
fn queued_messages_apply_on_bind() {
    let mut hub: Hub<Num> = Hub::new(1);
    let link = hub.add_link();
    link.msg_on_bind(&mut hub, NumMsg::Inc);
    link.msg_on_bind(&mut hub, NumMsg::Inc);
    link.msg_on_bind(&mut hub, NumMsg::Dec);
    let data = hub.add_data(Num(0));
    assert!(hub.take_render_requests().is_empty());
    assert_eq!(*data.current(&hub), Num(0));
    link.bind(&mut hub, &data);
    assert_eq!(*data.current(&hub), Num(1));
    assert_eq!(hub.take_render_requests(), vec![0, 0, 0]);
}

#[test]
fn two_links_share_one_cell() {
    let mut hub: Hub<Num> = Hub::new(1);
    let data = hub.add_data(Num(0));
    let l1 = hub.add_link();
    let l2 = hub.add_link();
    l1.bind(&mut hub, &data);
    l2.bind(&mut hub, &data);
    assert!(hub.take_render_requests().is_empty());
    l1.msg_on_bind(&mut hub, NumMsg::Inc);
    assert_eq!(hub.take_render_requests(), vec![0]);
    l2.msg_on_bind(&mut hub, NumMsg::Inc);
    assert_eq!(hub.take_render_requests(), vec![0]);
    assert_eq!(*data.current(&hub), Num(2));
}

#[test]
fn try_msg_after_unbind_is_not_bound() {
    let mut hub: Hub<Num> = Hub::new(1);
    let data = hub.add_data(Num(5));
    let link = hub.add_link();
    link.bind(&mut hub, &data);
    assert_eq!(link.try_msg(&mut hub, NumMsg::Inc), Ok(()));
    assert_eq!(*data.current(&hub), Num(6));
    link.unbind(&mut hub);
    hub.take_render_requests();
    assert_eq!(link.try_msg(&mut hub, NumMsg::Inc), Err(NotBound));
    assert_eq!(*data.current(&hub), Num(6));
    assert!(hub.take_render_requests().is_empty());
}

#[test]
fn try_msg_on_fresh_link_is_not_bound() {
    let mut hub: Hub<Num> = Hub::new(1);
    let data = hub.add_data(Num(0));
    let link = hub.add_link();
    assert_eq!(link.try_msg(&mut hub, NumMsg::Dec), Err(NotBound));
    // A failed try_msg queues nothing.
    link.bind(&mut hub, &data);
    assert_eq!(*data.current(&hub), Num(0));
    assert!(hub.take_render_requests().is_empty());
}

#[test]
fn bound_status_follows_bind_and_unbind() {
    let mut hub: Hub<Num> = Hub::new(1);
    let data = hub.add_data(Num(0));
    let link = hub.add_link();
    assert!(!link.is_binded(&hub));
    link.bind(&mut hub, &data);
    assert!(link.is_binded(&hub));
    link.unbind(&mut hub);
    assert!(!link.is_binded(&hub));
    link.bind(&mut hub, &data);
    assert!(link.is_binded(&hub));
}

#[test]
fn rebind_retargets_sends() {
    let mut hub: Hub<Num> = Hub::new(1);
    let first = hub.add_data(Num(0));
    let second = hub.add_data(Num(10));
    let link = hub.add_link();
    link.bind(&mut hub, &first);
    link.msg(&mut hub, NumMsg::Inc);
    link.unbind(&mut hub);
    link.msg_on_bind(&mut hub, NumMsg::Inc);
    assert_eq!(*first.current(&hub), Num(1));
    assert_eq!(*second.current(&hub), Num(10));
    link.bind(&mut hub, &second);
    link.msg(&mut hub, NumMsg::Dec);
    link.msg(&mut hub, NumMsg::Dec);
    assert_eq!(*first.current(&hub), Num(1));
    assert_eq!(*second.current(&hub), Num(9));
    assert_eq!(hub.take_render_requests(), vec![0, 1, 1, 1]);
}

#[test]
fn last_bind_wins() {
    let mut hub: Hub<Num> = Hub::new(1);
    let first = hub.add_data(Num(0));
    let second = hub.add_data(Num(0));
    let link = hub.add_link();
    link.bind(&mut hub, &first);
    link.bind(&mut hub, &second);
    link.msg(&mut hub, NumMsg::Inc);
    assert_eq!(*first.current(&hub), Num(0));
    assert_eq!(*second.current(&hub), Num(1));
    assert_eq!(hub.take_render_requests(), vec![1]);
}

#[test]
fn bound_sends_apply_in_call_order() {
    let mut hub: Hub<Items> = Hub::new(1);
    let data = hub.add_data(Items(vec![7]));
    let a = hub.add_link();
    let b = hub.add_link();
    a.bind(&mut hub, &data);
    b.bind(&mut hub, &data);
    a.msg(&mut hub, ItemsMsg::Push(1));
    b.msg(&mut hub, ItemsMsg::Clear);
    b.msg(&mut hub, ItemsMsg::Push(2));
    a.msg(&mut hub, ItemsMsg::Push(3));
    data.msg(&mut hub, ItemsMsg::Push(4));
    assert_eq!(*data.current(&hub), Items(vec![2, 3, 4]));
    assert_eq!(hub.take_render_requests(), vec![0, 0, 0, 0, 0]);
}

#[test]
fn queued_order_matches_direct_application() {
    let mut hub: Hub<Items> = Hub::new(1);
    let link = hub.add_link();
    link.msg_on_bind(&mut hub, ItemsMsg::Push(1));
    link.msg_on_bind(&mut hub, ItemsMsg::Clear);
    link.msg_on_bind(&mut hub, ItemsMsg::Push(2));
    link.msg_on_bind(&mut hub, ItemsMsg::Push(3));
    let bound = hub.add_data(Items(vec![9]));
    let direct = hub.add_data(Items(vec![9]));
    link.bind(&mut hub, &bound);
    direct.msg(&mut hub, ItemsMsg::Push(1));
    direct.msg(&mut hub, ItemsMsg::Clear);
    direct.msg(&mut hub, ItemsMsg::Push(2));
    direct.msg(&mut hub, ItemsMsg::Push(3));
    assert_eq!(*bound.current(&hub), Items(vec![2, 3]));
    assert_eq!(*bound.current(&hub), *direct.current(&hub));
}

#[test]
fn queue_survives_unbind_of_unbound_link() {
    let mut hub: Hub<Num> = Hub::new(1);
    let data = hub.add_data(Num(0));
    let link = hub.add_link();
    link.msg_on_bind(&mut hub, NumMsg::Inc);
    link.unbind(&mut hub);
    assert!(!link.is_binded(&hub));
    link.bind(&mut hub, &data);
    assert_eq!(*data.current(&hub), Num(1));
}

#[test]
fn data_msg_asks_for_one_render() {
    let mut hub: Hub<Num> = Hub::new(1);
    let a = hub.add_data(Num(0));
    let b = hub.add_data(Num(0));
    b.msg(&mut hub, NumMsg::Dec);
    a.msg(&mut hub, NumMsg::Inc);
    assert_eq!(*a.current(&hub), Num(1));
    assert_eq!(*b.current(&hub), Num(-1));
    assert_eq!(hub.take_render_requests(), vec![1, 0]);
    assert!(hub.take_render_requests().is_empty());
}

#[test]
fn binding_with_empty_queue_renders_nothing() {
    let mut hub: Hub<Num> = Hub::new(1);
    let data = hub.add_data(Num(3));
    let link = hub.add_link();
    link.bind(&mut hub, &data);
    assert_eq!(*data.current(&hub), Num(3));
    assert!(hub.take_render_requests().is_empty());
}

#[test]
fn link_handles_compare_by_identity() {
    let mut hub: Hub<Num> = Hub::new(1);
    let a = hub.add_link();
    let b = hub.add_link();
    let a2 = a.clone();
    assert!(a == a2);
    assert!(a != b);
    let data = hub.add_data(Num(0));
    a.bind(&mut hub, &data);
    assert!(a2.is_binded(&hub));
    assert!(!b.is_binded(&hub));
}

#[test]
fn handles_belong_to_the_hub_that_made_them() {
    let mut first: Hub<Num> = Hub::new(1);
    let mut second: Hub<Num> = Hub::new(2);
    let d1 = first.add_data(Num(0));
    let l1 = first.add_link();
    let d2 = second.add_data(Num(0));
    let l2 = second.add_link();
    assert!(first.contains_data(&d1));
    assert!(first.contains_link(&l1));
    assert!(!first.contains_data(&d2));
    assert!(!first.contains_link(&l2));
    assert!(second.contains_data(&d2));
    assert!(second.contains_link(&l2));
    assert!(!second.contains_data(&d1));
    assert!(!second.contains_link(&l1));
}

#[test]
fn first_links_of_two_hubs_differ() {
    let mut first: Hub<Num> = Hub::new(1);
    let mut second: Hub<Num> = Hub::new(2);
    let a = first.add_link();
    let b = second.add_link();
    assert!(a != b);
    assert!(a == a.clone());
}

#[test]
fn removed_cell_releases_its_links() {
    let mut hub: Hub<Num> = Hub::new(1);
    let data = hub.add_data(Num(4));
    let other = hub.add_data(Num(0));
    let link = hub.add_link();
    link.bind(&mut hub, &data);
    data.remove(&mut hub);
    assert!(!hub.contains_data(&data));
    assert!(hub.contains_data(&other));
    assert!(!link.is_binded(&hub));
    link.msg_on_bind(&mut hub, NumMsg::Inc);
    assert!(hub.take_render_requests().is_empty());
    link.bind(&mut hub, &other);
    assert_eq!(*other.current(&hub), Num(1));
    assert_eq!(hub.take_render_requests(), vec![1]);
}

#[test]
fn removed_link_is_gone() {
    let mut hub: Hub<Num> = Hub::new(1);
    let data = hub.add_data(Num(0));
    let a = hub.add_link();
    let b = hub.add_link();
    a.bind(&mut hub, &data);
    a.remove(&mut hub);
    assert!(!hub.contains_link(&a));
    assert!(hub.contains_link(&b));
    b.bind(&mut hub, &data);
    b.msg(&mut hub, NumMsg::Dec);
    assert_eq!(*data.current(&hub), Num(-1));
}

#[test]
fn bind_renders_once_per_queued_message() {
    let mut hub: Hub<Items> = Hub::new(1);
    let other = hub.add_data(Items(vec![]));
    let link = hub.add_link();
    link.msg_on_bind(&mut hub, ItemsMsg::Push(1));
    link.msg_on_bind(&mut hub, ItemsMsg::Push(2));
    let data = hub.add_data(Items(vec![]));
    other.msg(&mut hub, ItemsMsg::Push(0));
    link.bind(&mut hub, &data);
    assert_eq!(hub.take_render_requests(), vec![0, 1, 1]);
    assert_eq!(*data.current(&hub), Items(vec![1, 2]));
}
