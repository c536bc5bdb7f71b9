use gonk_core::index::Index;
use gonk_core::player::{Command, Player};

#[test]
fn commands_queue_in_decision_order() {
    let mut p = Player::new(Index::empty(), 50, 0);
    p.set_output_device(b"speakers".to_vec());
    p.seek(0);
    p.clear();
    let cmds = p.take_commands();
    assert_eq!(cmds.len(), 3);
    assert!(matches!(&cmds[0], Command::SetDevice { name } if name == b"speakers"));
    assert!(matches!(&cmds[1], Command::Seek { ms: 0 }));
    assert!(matches!(&cmds[2], Command::Stop));
    assert!(p.take_commands().is_empty());
}

#[test]
fn seek_backward_clamps_to_the_start() {
    let mut p = Player::new(Index::empty(), 50, 0);
    p.seek_backward();
    assert_eq!(p.elapsed(), 0);
}

#[test]
fn index_remove_adjusts_the_cursor() {
    let mut ix: Index<u32> = Index::new(vec![10, 20, 30], Some(2));
    // removing before the cursor slides it forward
    assert_eq!(ix.remove(0), 10);
    assert_eq!(ix.index, Some(1));
    // removing at the end clamps it
    assert_eq!(ix.remove(1), 30);
    assert_eq!(ix.index, Some(0));
    // emptying clears it
    assert_eq!(ix.remove(0), 20);
    assert_eq!(ix.index, None);
}

#[test]
fn index_extend_keeps_the_cursor() {
    let mut ix: Index<u32> = Index::new(vec![1], Some(0));
    ix.extend(vec![2, 3]);
    assert_eq!(ix.data, vec![1, 2, 3]);
    assert_eq!(ix.index, Some(0));
}
