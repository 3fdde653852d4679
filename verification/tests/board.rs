use imageboard::{BoardError, ImageBoard, StorageKey};
use near_sdk::test_utils::VMContextBuilder;
use near_sdk::{AccountId, NearToken};

/// Makes the next calls come from `predecessor`, signed by `signer`, with
/// `deposit` yoctoNEAR attached, keeping the storage written so far.
fn set_call(predecessor: &str, signer: &str, deposit: u128) {
    let mut builder = VMContextBuilder::new();
    builder
        .predecessor_account_id(predecessor.parse().unwrap())
        .signer_account_id(signer.parse().unwrap())
        .attached_deposit(NearToken::from_yoctonear(deposit));
    let storage = near_sdk::mock::with_mocked_blockchain(|b| b.take_storage());
    near_sdk::env::set_blockchain_interface(near_sdk::MockedBlockchain::new(
        builder.build(),
        near_sdk::test_vm_config(),
        near_sdk::RuntimeFeesConfig::test(),
        vec![],
        storage,
        Default::default(),
        None,
    ));
}

fn s(text: &str) -> String {
    text.to_string()
}

#[test]
fn create_board() {
    let contract: ImageBoard = ImageBoard::default();
    let owner: String = contract.get_owner();
    println!("owner {:?}", owner);
    assert_eq!(owner, "bob.near");
}

#[test]
fn add_thread() {
    let mut contract: ImageBoard = ImageBoard::default();

    contract.add_thread("sup NEARach. There is some tyan...".to_string()).unwrap();

    assert_eq!(1, contract.get_threads().len());

    for _ in 1..50 {
        contract.add_thread("threads dudos".to_string()).unwrap();
    }
    println!("total threads {:?}", contract.get_threads().len());
    println!("count {:?}", contract.get_count());

    assert_eq!(50, contract.get_threads().len());

    let thread: String = contract.get_the_thread(4);

    println!("thread numb 4 for check  = {:?}", thread);
    assert_eq!(thread, "threads dudos".to_string());

    let thread: String = contract.get_the_thread(420);
    assert_eq!(thread, "thread not found".to_string());

    contract.remove_thread(&1);
    contract.remove_thread(&1);
    assert_eq!(49, contract.get_threads().len());
}

#[test]
fn add_get_answers() {
    let mut contract: ImageBoard = ImageBoard::default();

    contract.add_thread("sup NEARach. There is some tyan...".to_string()).unwrap();

    let answ: String = contract.add_answers(1, "bbs or go".to_string());
    println!("status  = {:?}", answ);
    contract.add_answers(1, "gurls wthout magic stick do not exist".to_string());
    contract.add_answers(1, "show her magic stick!".to_string());
    let thread: String = contract.get_the_thread(1);

    println!("thread numb 1 for check  = {:?}", thread);

    let answ: String = contract.get_thread_answers(1);
    for i in answ.lines() {
        println!("answers  = {:?}", i);
    }
}

#[test]
fn moders() {
    let sarina: AccountId = "sarina.near".parse().unwrap();
    let mars: AccountId = "mars.near".parse().unwrap();
    let bailey: AccountId = "bailey.near".parse().unwrap();

    let mut contract: ImageBoard = ImageBoard::default();
    println!("owner  {:?}", contract.get_owner());

    let moder: String = contract.add_moder(mars.to_string());
    println!("moder {:?}", moder);

    let check: bool = contract.is_moder(&sarina.to_string());
    println!("check  {:?}", check);

    let list_moder: Vec<String> = contract.get_moders();
    println!("moder list  {:?}", list_moder);

    let _ban = contract.ban(&bailey.to_string());
    let ban_list = contract.get_bans();
    println!("ban list  {:?}", ban_list);
}

#[test]
fn balance() {
    let contract: ImageBoard = ImageBoard::default();
    let balanse: u128 = contract.get_balance();
    println!("balanse {:?}", balanse);
}

#[test]
fn new_board_is_empty() {
    let board = ImageBoard::new(s("owner.near"), s("token.near"));
    assert_eq!(board.get_owner(), "owner.near");
    assert_eq!(board.get_count(), 0);
    assert_eq!(board.get_balance(), 0);
    assert!(board.get_threads().is_empty());
    assert!(board.get_moders().is_empty());
    assert!(board.get_bans().is_empty());
    assert_eq!(board.get_the_thread(1), "thread not found");
}

#[test]
fn storage_keys_are_variant_positions() {
    assert_eq!(StorageKey::Threads.into_storage_key(), vec![0u8]);
    assert_eq!(StorageKey::OwnerId.into_storage_key(), vec![1u8]);
    assert_eq!(StorageKey::ModersId.into_storage_key(), vec![2u8]);
    assert_eq!(StorageKey::BansId.into_storage_key(), vec![3u8]);
    assert_eq!(StorageKey::FTDeposits.into_storage_key(), vec![4u8]);
    assert_eq!(StorageKey::Answers.into_storage_key(), vec![5u8]);
}

#[test]
fn threads_list_in_order_with_authors() {
    let mut board = ImageBoard::new(s("bob.near"), s("token.near"));
    board.add_thread_as(s("ann.near"), 0, s("first"));
    board.add_thread_as(s("ben.near"), 0, s("second"));
    let threads = board.get_threads();
    assert_eq!(threads, vec![(1, s("ann.near"), s("first"), false), (2, s("ben.near"), s("second"), false)]);
    assert_eq!(board.get_count(), 2);
}

#[test]
fn premium_from_any_deposit() {
    let mut board = ImageBoard::new(s("bob.near"), s("token.near"));
    board.add_thread_as(s("ann.near"), 1, s("paid"));
    board.add_thread_as(s("ann.near"), 0, s("free"));
    let threads = board.get_threads();
    assert!(threads[0].3);
    assert!(!threads[1].3);
}

#[test]
fn attached_deposit_makes_premium() {
    set_call("carol.near", "carol.near", 100_000_000_000_000_000_000_000);
    let mut board = ImageBoard::new(s("bob.near"), s("token.near"));
    board.add_thread(s("paid")).unwrap();
    let threads = board.get_threads();
    assert_eq!(threads, vec![(1, s("carol.near"), s("paid"), true)]);
}

#[test]
fn third_thread_is_rewarded() {
    let mut board = ImageBoard::new(s("bob.near"), s("token.near"));
    assert!(board.add_thread_as(s("a.near"), 0, s("1")).is_none());
    assert!(board.add_thread_as(s("b.near"), 0, s("2")).is_none());
    let reward = board.add_thread_as(s("c.near"), 0, s("3")).unwrap();
    assert_eq!(reward.token, "token.near");
    assert_eq!(reward.receiver, "c.near");
    assert_eq!(reward.amount, 1);
    assert_eq!(reward.deposit, 1);
    assert!(board.add_thread_as(s("d.near"), 0, s("4")).is_none());
}

#[test]
fn pay_ft_is_one_yocto_of_the_token() {
    let board = ImageBoard::new(s("bob.near"), s("token.near"));
    let t = board.pay_ft(&s("x.near"));
    assert_eq!((t.token.as_str(), t.receiver.as_str(), t.amount, t.deposit), ("token.near", "x.near", 1, 1));
}

#[test]
fn banned_author_posts_nothing() {
    let mut board = ImageBoard::new(s("bob.near"), s("token.near"));
    board.add_thread_as(s("ann.near"), 0, s("open"));
    board.ban_as(&s("bob.near"), &s("troll.near"));
    assert!(board.is_banned(&s("troll.near")));
    assert!(board.add_thread_as(s("troll.near"), 0, s("spam")).is_none());
    assert_eq!(board.get_count(), 1);
    assert_eq!(board.add_answers_as(&s("troll.near"), 1, s("spam")), "banned");
    assert_eq!(board.get_thread_answers(1), "");
}

#[test]
fn only_staff_ban() {
    let mut board = ImageBoard::new(s("bob.near"), s("token.near"));
    board.ban_as(&s("ann.near"), &s("troll.near"));
    assert!(board.get_bans().is_empty());
    board.add_moder_as(&s("bob.near"), s("mod.near"));
    board.ban_as(&s("mod.near"), &s("troll.near"));
    assert_eq!(board.get_bans(), vec![s("troll.near")]);
}

#[test]
fn only_owner_appoints() {
    let mut board = ImageBoard::new(s("bob.near"), s("token.near"));
    assert_eq!(board.add_moder_as(&s("ann.near"), s("x.near")), "denied");
    assert!(board.get_moders().is_empty());
    assert_eq!(board.add_moder_as(&s("bob.near"), s("x.near")), "success");
    assert!(board.is_moder(&s("x.near")));
    assert_eq!(board.delete_moder_as(&s("x.near"), s("x.near")), "denied");
    assert_eq!(board.delete_moder_as(&s("bob.near"), s("x.near")), "success");
    assert!(!board.is_moder(&s("x.near")));
}

#[test]
fn moderator_removal_moves_last_into_place() {
    let mut board = ImageBoard::new(s("bob.near"), s("token.near"));
    board.add_moder_as(&s("bob.near"), s("a.near"));
    board.add_moder_as(&s("bob.near"), s("b.near"));
    board.add_moder_as(&s("bob.near"), s("c.near"));
    board.delete_moder_as(&s("bob.near"), s("a.near"));
    assert_eq!(board.get_moders(), vec![s("c.near"), s("b.near")]);
}

#[test]
fn ban_round_trip() {
    let mut board = ImageBoard::new(s("bob.near"), s("token.near"));
    board.ban_as(&s("bob.near"), &s("x.near"));
    board.ban_as(&s("bob.near"), &s("y.near"));
    let before = board.get_bans();
    board.ban_as(&s("bob.near"), &s("x.near"));
    board.remove_ban_as(&s("bob.near"), s("x.near"));
    assert_eq!(board.get_bans(), before);
}

#[test]
fn moder_round_trip() {
    let mut board = ImageBoard::new(s("bob.near"), s("token.near"));
    board.add_moder_as(&s("bob.near"), s("a.near"));
    let before = board.get_moders();
    board.add_moder_as(&s("bob.near"), s("z.near"));
    board.delete_moder_as(&s("bob.near"), s("z.near"));
    assert_eq!(board.get_moders(), before);
}

#[test]
fn remove_ban_errors() {
    set_call("bob.near", "bob.near", 0);
    let mut board = ImageBoard::new(s("bob.near"), s("token.near"));
    assert_eq!(board.remove_ban(s("nobody.near")), Err(BoardError::NotBanned));
    board.ban(&s("x.near"));
    assert_eq!(board.remove_ban(s("x.near")), Ok(()));
    assert!(!board.is_banned(&s("x.near")));
    set_call("ann.near", "ann.near", 0);
    assert_eq!(board.remove_ban(s("nobody.near")), Ok(()));
}

#[test]
fn delete_moder_errors() {
    set_call("bob.near", "bob.near", 0);
    let mut board = ImageBoard::new(s("bob.near"), s("token.near"));
    assert_eq!(board.delete_moder(s("nobody.near")), Err(BoardError::NotAModerator));
    assert_eq!(board.add_moder(s("m.near")), "success");
    assert_eq!(board.delete_moder(s("m.near")), Ok(s("success")));
    set_call("ann.near", "ann.near", 0);
    assert_eq!(board.delete_moder(s("nobody.near")), Ok(s("denied")));
    assert_eq!(board.add_moder(s("m.near")), "denied");
}

#[test]
fn ban_thread_closes_it() {
    set_call("bob.near", "bob.near", 0);
    let mut board = ImageBoard::new(s("bob.near"), s("token.near"));
    board.add_thread(s("topic")).unwrap();
    assert_eq!(board.ban_thread(7), Err(BoardError::ThreadNotFound));
    assert_eq!(board.ban_thread(1), Ok(()));
    assert_eq!(board.add_answers(1, s("late")), "thread is closed");
    assert_eq!(board.get_thread_answers(1), "");
    set_call("ann.near", "ann.near", 0);
    assert_eq!(board.ban_thread(7), Ok(()));
}

#[test]
fn answers_numbering_and_text() {
    let mut board = ImageBoard::new(s("bob.near"), s("token.near"));
    board.add_thread_as(s("ann.near"), 0, s("topic"));
    assert_eq!(board.add_answers_as(&s("x.near"), 1, s("a")), "first post");
    assert_eq!(board.add_answers_as(&s("x.near"), 1, s("b")), "succes");
    assert_eq!(board.add_answers_as(&s("x.near"), 1, s("c")), "succes");
    assert_eq!(board.get_thread_answers(1), "a\nb\nc\n");
}

#[test]
fn full_thread_closes() {
    let mut board = ImageBoard::new(s("bob.near"), s("token.near"));
    board.add_thread_as(s("ann.near"), 0, s("topic"));
    for _ in 0..500 {
        board.add_answers_as(&s("x.near"), 1, s("a"));
    }
    assert_eq!(board.add_answers_as(&s("x.near"), 1, s("one too many")), "thread is closed");
    assert_eq!(board.add_answers_as(&s("x.near"), 1, s("after")), "thread is closed");
    assert_eq!(board.get_thread_answers(1).lines().count(), 500);
}

#[test]
fn thread_limit_removes_oldest() {
    let mut board = ImageBoard::new(s("bob.near"), s("token.near"));
    for _ in 0..500 {
        board.add_thread_as(s("ann.near"), 0, s("t"));
    }
    assert_eq!(board.get_threads().len(), 500);
    board.remove_thread_as(&s("bob.near"), 1);
    board.add_thread_as(s("ann.near"), 0, s("fills the board"));
    assert_eq!(board.get_threads().len(), 500);
    board.add_thread_as(s("ann.near"), 0, s("by a guest"));
    assert_eq!(board.get_threads().len(), 500);
    assert_eq!(board.get_the_thread(2), "thread not found");
    assert_eq!(board.get_the_thread(3), "t");
    assert_eq!(board.get_the_thread(501), "fills the board");
    assert_eq!(board.get_the_thread(502), "by a guest");
    assert_eq!(board.get_count(), 502);
    board.ban_as(&s("bob.near"), &s("troll.near"));
    board.add_thread_as(s("troll.near"), 0, s("spam"));
    assert_eq!(board.get_threads().len(), 500);
    assert_eq!(board.get_the_thread(3), "t");
}

#[test]
fn remove_thread_only_by_staff_and_idempotent() {
    let mut board = ImageBoard::new(s("bob.near"), s("token.near"));
    board.add_thread_as(s("ann.near"), 0, s("a"));
    board.add_thread_as(s("ann.near"), 0, s("b"));
    board.add_thread_as(s("ann.near"), 0, s("c"));
    board.remove_thread_as(&s("ann.near"), 1);
    assert_eq!(board.get_threads().len(), 3);
    board.remove_thread_as(&s("bob.near"), 1);
    board.remove_thread_as(&s("bob.near"), 1);
    let numbers: Vec<i32> = board.get_threads().iter().map(|t| t.0).collect();
    assert_eq!(numbers, vec![3, 2]);
}

#[test]
fn token_deposit_needs_sender_to_call() {
    set_call("ann.near", "someone.near", 0);
    let mut board = ImageBoard::new(s("bob.near"), s("token.near"));
    assert_eq!(board.ft_on_transfer(s("ann.near"), 420, s("")), Ok(0));
    assert_eq!(board.get_balance(), 420);
    assert_eq!(board.ft_on_transfer(s("ben.near"), 5, s("")), Err(BoardError::NotSender));
    assert_eq!(board.get_balance(), 420);
    set_call("token.near", "ann.near", 0);
    assert_eq!(board.ft_on_transfer(s("ann.near"), 5, s("")), Err(BoardError::NotSender));
    assert_eq!(board.get_balance(), 420);
    set_call("ann.near", "someone.near", 0);
    assert_eq!(board.finish_deposit(s("ann.near"), 80, s("msg")), 0);
    assert_eq!(board.get_balance(), 500);
}

#[test]
fn unknown_account_has_no_deposit() {
    let board = ImageBoard::new(s("bob.near"), s("token.near"));
    assert_eq!(board.storage_deposits(s("nobody.near")), 0);
}

#[test]
fn assert_owner_checks_caller() {
    set_call("bob.near", "bob.near", 0);
    let board = ImageBoard::new(s("bob.near"), s("token.near"));
    assert_eq!(board.assert_owner(), Ok(()));
    assert_eq!(board.assert_owner_as(&s("ann.near")), Err(BoardError::NotOwner));
    set_call("ann.near", "ann.near", 0);
    assert_eq!(board.assert_owner(), Err(BoardError::NotOwner));
}

#[test]
fn new_default_is_owned_by_caller() {
    set_call("dave.near", "dave.near", 0);
    let board = ImageBoard::new_default();
    assert_eq!(board.get_owner(), "dave.near");
    assert!(board.has_thread(1) == false);
}

#[test]
fn answers_stay_with_their_thread() {
    let mut board = ImageBoard::new(s("bob.near"), s("token.near"));
    board.add_thread_as(s("ann.near"), 0, s("one"));
    board.add_thread_as(s("ann.near"), 0, s("two"));
    board.add_answers_as(&s("x.near"), 2, s("for two"));
    board.add_answers_as(&s("x.near"), 1, s("for one"));
    assert_eq!(board.get_thread_answers(1), "for one\n");
    assert_eq!(board.get_thread_answers(2), "for two\n");
    assert_eq!(board.get_owner(), "bob.near");
    assert_eq!(board.get_balance(), 0);
}
