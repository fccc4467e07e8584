use sync_primitives::linked_list::{
    ContainsOp, DeleteOp, InsertOp, Link, LinkedList, ListAccess, ListReply, Node, WalkOp,
};

fn items(list: &LinkedList<u32>) -> Vec<u32> {
    let mut items = Vec::new();
    let mut node = list.head();
    while node != 0 {
        items.push(list.node(node).data);
        node = list.node(node).next;
    }
    items
}

#[test]
fn a_new_node_stands_alone() {
    let node = Node::new(9u8);
    assert_eq!(node.data, 9);
    assert_eq!(node.next, 0);
    assert_eq!(node.ref_count, 0);
}

#[test]
fn the_newest_item_comes_first() {
    let mut list = LinkedList::new();
    list.insert(1);
    list.insert(2);
    list.insert(3);
    assert_eq!(items(&list), vec![3, 2, 1]);
    assert!(list.contains(&1));
    assert!(list.contains(&3));
    assert!(!list.contains(&4));
    assert!(list.can_allocate());
}

#[test]
fn the_first_equal_item_is_taken_out() {
    let mut list = LinkedList::new();
    for item in [1, 2, 1, 3] {
        list.insert(item);
    }
    assert_eq!(items(&list), vec![3, 1, 2, 1]);
    assert!(list.delete(&1));
    assert_eq!(items(&list), vec![3, 2, 1]);
    assert!(list.delete(&3));
    assert_eq!(items(&list), vec![2, 1]);
    assert!(list.delete(&1));
    assert_eq!(items(&list), vec![2]);
    assert!(!list.delete(&1));
    assert!(list.delete(&2));
    assert!(!list.delete(&2));
    assert_eq!(items(&list), vec![]);
}

#[test]
fn deleting_undoes_inserting() {
    let mut list = LinkedList::new();
    list.insert(5);
    list.insert(6);
    list.insert(7);
    assert!(list.contains(&7));
    assert!(list.delete(&7));
    assert_eq!(items(&list), vec![6, 5]);
}

#[test]
fn all_nodes_are_given_back() {
    let mut list = LinkedList::new();
    list.insert(5);
    list.insert(6);
    list.clear();
    assert_eq!(items(&list), vec![]);
    list.insert(7);
    assert_eq!(items(&list), vec![7]);
}

#[test]
fn addresses_are_used_again() {
    let mut list = LinkedList::new();
    list.insert(0);
    let first = list.head();
    for item in 1..1000 {
        assert!(list.delete(&(item - 1)));
        list.insert(item);
        assert_eq!(list.head(), first);
    }
    assert_eq!(items(&list), vec![999]);
    assert!(list.can_allocate());
}

#[test]
fn two_insertions_at_a_time() {
    let mut list = LinkedList::new();
    let a = list.allocate(1);
    let b = list.allocate(2);
    let mut first = InsertOp::Load { node: a };
    let mut second = InsertOp::Load { node: b };
    first = list.insert_step(first);
    second = list.insert_step(second);
    first = list.insert_step(first);
    second = list.insert_step(second);
    first = list.insert_step(first);
    assert_eq!(first, InsertOp::Done);
    // The head has changed: the second thread starts over.
    second = list.insert_step(second);
    assert_eq!(second, InsertOp::Load { node: b });
    while second != InsertOp::Done {
        second = list.insert_step(second);
    }
    assert_eq!(items(&list), vec![2, 1]);
}

#[test]
fn a_node_is_not_given_back_under_a_reader() {
    let mut list = LinkedList::new();
    list.insert(1);
    list.insert(2);
    let node = list.head();
    let mut reader = list.contains_step(ContainsOp::Enter, &1);
    reader = list.contains_step(reader, &1);
    assert_eq!(reader, ContainsOp::Examine { node });

    let mut op = DeleteOp::LoadHead;
    while !matches!(op, DeleteOp::AwaitReaders { .. }) {
        op = list.delete_step(op, &2);
    }
    assert_eq!(items(&list), vec![1]);
    op = list.delete_step(op, &2);
    assert_eq!(op, DeleteOp::Spin { node });
    while !matches!(reader, ContainsOp::Done { .. }) {
        reader = list.contains_step(reader, &1);
    }
    assert_eq!(reader, ContainsOp::Done { found: true });
    op = list.delete_step(op, &2);
    op = list.delete_step(op, &2);
    assert_eq!(op.access(), ListAccess::Free { node });
    op = list.delete_step(op, &2);
    assert_eq!(op, DeleteOp::Done { deleted: true });
}

#[test]
fn a_changed_link_makes_a_deletion_give_up() {
    let mut list = LinkedList::new();
    list.insert(1);
    let node = list.head();
    let mut op = DeleteOp::LoadHead;
    while !matches!(op, DeleteOp::Exchange { .. }) {
        op = list.delete_step(op, &1);
    }
    assert_eq!(op, DeleteOp::Exchange { link: Link::Head, node, next: 0 });
    list.insert(2);
    op = list.delete_step(op, &1);
    assert_eq!(op, DeleteOp::Done { deleted: false });
    assert_eq!(items(&list), vec![2, 1]);
    assert_eq!(
        DeleteOp::Advance { node: 4 }.resume(ListReply::Address { node: 8 }),
        DeleteOp::Examine { link: Link::Next { node: 4 }, node: 8 }
    );
}

#[test]
fn a_node_out_of_the_list_is_destroyed() {
    let mut list = LinkedList::new();
    list.insert(1);
    let node = list.allocate(2);
    list.defer_destroy_node(node);
    assert_eq!(items(&list), vec![1]);
}

#[test]
fn a_search_goes_on_from_a_node_that_was_taken_out() {
    let mut list = LinkedList::new();
    for item in [1, 2, 3] {
        list.insert(item);
    }
    let mut reader = list.contains_step(ContainsOp::Enter, &1);
    reader = list.contains_step(reader, &1);
    reader = list.contains_step(reader, &1);
    assert_eq!(reader, ContainsOp::Advance { node: list.head() });

    let mut op = DeleteOp::LoadHead;
    while !matches!(op, DeleteOp::AwaitReaders { .. }) {
        op = list.delete_step(op, &3);
    }
    assert_eq!(items(&list), vec![2, 1]);
    while !matches!(reader, ContainsOp::Done { .. }) {
        reader = list.contains_step(reader, &1);
    }
    assert_eq!(reader, ContainsOp::Done { found: true });
}

#[test]
fn two_deletions_at_a_time() {
    let mut list = LinkedList::new();
    for item in [1, 2, 3] {
        list.insert(item);
    }
    let reader = list.contains_step(ContainsOp::Enter, &9);
    let mut first = DeleteOp::LoadHead;
    while !matches!(first, DeleteOp::AwaitReaders { .. }) {
        first = list.delete_step(first, &3);
    }
    let mut second = DeleteOp::LoadHead;
    while !matches!(second, DeleteOp::AwaitReaders { .. }) {
        second = list.delete_step(second, &1);
    }
    assert_eq!(items(&list), vec![2]);
    let mut reader = reader;
    while !matches!(reader, ContainsOp::Done { .. }) {
        reader = list.contains_step(reader, &9);
    }
    assert_eq!(reader, ContainsOp::Done { found: false });
    while !matches!(first, DeleteOp::Done { .. }) {
        first = list.delete_step(first, &3);
    }
    while !matches!(second, DeleteOp::Done { .. }) {
        second = list.delete_step(second, &1);
    }
    assert_eq!(first, DeleteOp::Done { deleted: true });
    assert_eq!(second, DeleteOp::Done { deleted: true });
    assert_eq!(items(&list), vec![2]);
}

#[test]
fn a_missing_item_can_be_deleted_under_a_reader() {
    let mut list = LinkedList::new();
    list.insert(1);
    let reader = list.contains_step(ContainsOp::Enter, &1);
    assert_eq!(reader, ContainsOp::LoadHead);
    assert!(!list.delete(&2));
    assert_eq!(items(&list), vec![1]);
}

#[test]
fn a_walk_yields_what_the_list_held_at_its_beginning() {
    let mut list = LinkedList::new();
    for item in 1..=4 {
        list.insert(item);
    }
    let mut seen = Vec::new();
    let mut op = WalkOp::LoadHead;
    while op != WalkOp::Done {
        let (next, item) = list.walk_step(op);
        if let Some(item) = item {
            seen.push(*item);
        }
        op = next;
        // Items that are put in meanwhile do not show.
        list.insert(100 + seen.len() as u32);
    }
    assert_eq!(seen, vec![4, 3, 2, 1]);
    assert_eq!(items(&list).len(), 13);
    assert_eq!(WalkOp::LoadHead.resume(ListReply::Address { node: 0 }), WalkOp::Done);
    assert_eq!(WalkOp::Visit { node: 8 }.access(), ListAccess::Visit { node: 8 });
    assert_eq!(WalkOp::Visit { node: 8 }.resume(ListReply::Ack), WalkOp::Advance { node: 8 });
}

#[test]
fn a_node_is_given_back_when_other_deletions_are_past_it() {
    let mut list = LinkedList::new();
    for item in 1..=3 {
        list.insert(item);
    }
    let first = list.head();
    // One deletion has gone on to the second node and beyond.
    let mut slow = DeleteOp::LoadHead;
    while !matches!(slow, DeleteOp::LoadNext { .. }) {
        slow = list.delete_step(slow, &1);
    }
    // Another takes the first node out and gives it back.
    let mut quick = DeleteOp::LoadHead;
    while !matches!(quick, DeleteOp::Done { .. }) {
        quick = list.delete_step(quick, &3);
    }
    assert_eq!(quick, DeleteOp::Done { deleted: true });
    list.insert(9);
    assert_eq!(list.head(), first);
    while !matches!(slow, DeleteOp::Done { .. }) {
        slow = list.delete_step(slow, &1);
    }
    assert_eq!(slow, DeleteOp::Done { deleted: true });
    assert_eq!(items(&list), vec![9, 2]);
}
