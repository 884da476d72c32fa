//! Reference model tests.

use lockframe::model::{ModelClient, ModelWorld, Operation, OperationError, SmallMessage};

#[test]
fn model_basic_operations() {
    let mut model = ModelWorld::new(2);

    // client 0 creates a room
    let result = model.apply(&Operation::CreateRoom { client_id: 0, room_id: 1 });
    assert!(result.is_ok());

    // client 0 sends a message
    let result = model.apply(&Operation::SendMessage {
        client_id: 0,
        room_id: 1,
        content: SmallMessage { seed: 42, size_class: 1 },
    });
    assert!(result.is_ok());

    // client 1 is not a member and cannot send
    let result = model.apply(&Operation::SendMessage {
        client_id: 1,
        room_id: 1,
        content: SmallMessage { seed: 43, size_class: 1 },
    });
    assert!(result.is_err());

    // client 0 leaves
    let result = model.apply(&Operation::LeaveRoom { client_id: 0, room_id: 1 });
    assert!(result.is_ok());

    // client 0 cannot send after leaving
    let result = model.apply(&Operation::SendMessage {
        client_id: 0,
        room_id: 1,
        content: SmallMessage { seed: 44, size_class: 1 },
    });
    assert!(result.is_err());
}

#[test]
fn model_client_lifecycle() {
    let mut client = ModelClient::new(3);
    assert_eq!(client.id(), 3);
    assert!(!client.is_member(9));
    assert!(client.create_room(9).is_ok());
    assert!(client.is_member(9));
    assert_eq!(client.epoch(9), Some(0));
    assert!(client.create_room(9).is_err());
    client.advance_epoch(9);
    assert_eq!(client.epoch(9), Some(1));
    assert_eq!(client.rooms(), vec![9]);
    assert!(client.leave_room(9).is_ok());
    assert!(client.leave_room(9).is_err());
    assert!(client.rooms().is_empty());
}

#[test]
fn model_send_assigns_indices() {
    let mut client = ModelClient::new(0);
    client.create_room(4);
    assert_eq!(client.send_message(4), Ok(0));
    assert_eq!(client.send_message(4), Ok(1));
    assert_eq!(client.send_message(4), Ok(2));
    assert_eq!(client.send_message(5), Err(OperationError::NotMember));
}

#[test]
fn model_delivery_reaches_members() {
    let mut model = ModelWorld::new(2);
    model.apply(&Operation::CreateRoom { client_id: 0, room_id: 1 });
    model.apply(&Operation::SendMessage {
        client_id: 0,
        room_id: 1,
        content: SmallMessage { seed: 7, size_class: 2 },
    });
    let messages = model.client_messages(0, 1).expect("member has a message list");
    assert_eq!(messages.len(), 1);
    assert_eq!(messages[0].sender_id, 0);
    assert_eq!(messages[0].log_index, 0);
    assert_eq!(messages[0].content.len(), 64);
    assert_eq!(messages[0].content[0], 7);
}

#[test]
fn small_message_expansion_is_deterministic() {
    let message = SmallMessage { seed: 250, size_class: 5 };
    let a = message.to_bytes();
    let b = message.to_bytes();
    assert_eq!(a, b);
    assert_eq!(a.len(), 8);
    assert_eq!(a[0], 250);
    assert_eq!(a[6], 0); // the seed wraps around
    let empty = SmallMessage { seed: 1, size_class: 4 };
    assert!(empty.to_bytes().is_empty());
}
