//! The image board: threads, answers, moderators, bans and token deposits.

use vstd::prelude::*;

use crate::chain::{attached_deposit, predecessor_account};
use crate::model::{
    accounts_distinct, after_add_answer, after_add_moder, after_add_thread, after_ban,
    after_ban_thread, after_delete_moder, after_remove_ban, after_remove_thread, answer_key,
    answer_reply, answered, answers_text, board_wf, deposit_of, first_position, has_account,
    has_key, is_first_position, is_fresh, is_oldest, is_staff, key_position, lemma_first_position,
    lemma_key_position, lemma_oldest_position, lemma_wf_push, lemma_wf_swap_remove,
    lemma_wf_update, oldest_position, owner_reply, posts, swap_removed, thread_text, thread_wf,
    trimmed, value_of, with_threads, BoardView, ThreadView, ANSWER_LIMIT, ONE_YOCTO, REWARD_THREAD,
    THREAD_LIMIT,
};

verus! {

/// A thread of the board.
pub struct Thread {
    pub author: String,
    pub premium: bool,
    pub text: String,
    pub is_closed: bool,
    pub answers: Vec<(i32, String)>,
}

impl View for Thread {
    type V = ThreadView;

    open spec fn view(&self) -> ThreadView {
        ThreadView {
            author: self.author@,
            premium: self.premium,
            text: self.text@,
            is_closed: self.is_closed,
            answers: self.answers@.map_values(|a: (i32, String)| (a.0, a.1@)),
        }
    }
}

/// A transfer of fungible tokens that the board owes: `amount` of the token
/// contract `token` to `receiver`, with `deposit` yoctoNEAR attached.
#[derive(Debug, PartialEq, Eq)]
pub struct FtTransfer {
    pub token: String,
    pub receiver: String,
    pub amount: u128,
    pub deposit: u128,
}

/// A request for payment in one or more tokens.
#[derive(Debug, PartialEq)]
pub struct Invoice {
    pub invoice_id: String,
    pub receiver: String,
    pub sender: String,
    pub tokens: Vec<String>,
    pub amount: Vec<u128>,
    pub is_paid: bool,
    pub is_withdrawn: bool,
}

/// Why a call fails where the contract would abort it.
#[derive(Clone, Copy, Debug, PartialEq, Eq)]
pub enum BoardError {
    /// The caller is not the owner.
    NotOwner,
    /// Staff asked to close a thread that does not exist.
    ThreadNotFound,
    /// The owner asked to remove an account that is not a moderator.
    NotAModerator,
    /// Staff asked to lift a ban that does not exist.
    NotBanned,
    /// The account that made a token transfer call is not its sender.
    NotSender,
    /// The thread count is at its largest and cannot number another thread.
    CountOverflow,
}

/// Whether `r` is the reward owed for the thread that `author` posts on
/// board `v`: a transfer to the author exactly when the post is the
/// `REWARD_THREAD`-th.
pub open spec fn reward_for(v: BoardView, author: Seq<char>, r: Option<FtTransfer>) -> bool {
    if posts(v, author) && v.threads_count + 1 == REWARD_THREAD {
        &&& r.is_some()
        &&& r.unwrap().token@ == v.ft_id
        &&& r.unwrap().receiver@ == author
        &&& r.unwrap().amount == ONE_YOCTO
        &&& r.unwrap().deposit == ONE_YOCTO
    } else {
        r.is_none()
    }
}

/// What the owner check answers `caller`.
pub open spec fn owner_check(v: BoardView, caller: Seq<char>) -> Result<(), BoardError> {
    if caller == v.owner {
        Ok(())
    } else {
        Err(BoardError::NotOwner)
    }
}

/// Whether `w` and `r` are what posting `text` by `author` with `deposit`
/// makes of `v`.
pub open spec fn thread_posted(
    v: BoardView,
    w: BoardView,
    author: Seq<char>,
    deposit: u128,
    text: Seq<char>,
    r: Result<Option<FtTransfer>, BoardError>,
) -> bool {
    if posts(v, author) && v.threads_count == i32::MAX {
        r == Err::<Option<FtTransfer>, BoardError>(BoardError::CountOverflow) && w == v
    } else {
        &&& r.is_ok()
        &&& w == after_add_thread(v, author, deposit, text)
        &&& reward_for(v, author, r.unwrap())
    }
}

/// Whether `w` and `r` are what closing thread `number` by `caller` makes
/// of `v`.
pub open spec fn thread_banned(v: BoardView, w: BoardView, caller: Seq<char>, number: i32, r: Result<(), BoardError>) -> bool {
    if is_staff(v, caller) && !has_key(v.threads, number) {
        r == Err::<(), BoardError>(BoardError::ThreadNotFound) && w == v
    } else {
        r == Ok::<(), BoardError>(()) && w == after_ban_thread(v, caller, number)
    }
}

/// Whether `w` and `r` are what removing moderator `user` by `caller` makes
/// of `v`.
pub open spec fn moder_deleted(v: BoardView, w: BoardView, caller: Seq<char>, user: Seq<char>, r: Result<String, BoardError>) -> bool {
    if caller == v.owner && !v.moderators.contains(user) {
        r == Err::<String, BoardError>(BoardError::NotAModerator) && w == v
    } else {
        &&& r.is_ok()
        &&& r.unwrap()@ == owner_reply(v, caller)
        &&& w == after_delete_moder(v, caller, user)
    }
}

/// Whether `w` and `r` are what lifting the ban on `user` by `caller` makes
/// of `v`.
pub open spec fn ban_removed(v: BoardView, w: BoardView, caller: Seq<char>, user: Seq<char>, r: Result<(), BoardError>) -> bool {
    if is_staff(v, caller) && !v.bans.contains(user) {
        r == Err::<(), BoardError>(BoardError::NotBanned) && w == v
    } else {
        r == Ok::<(), BoardError>(()) && w == after_remove_ban(v, caller, user)
    }
}

/// The board's state, held as plain values. Whoever keeps the board (the
/// contract) stores and loads it whole, through `into_parts` and
/// `from_parts`, so that no other copy of it can change it unseen.
pub struct ImageBoard {
    threads: Vec<(i32, Thread)>,
    owner: String,
    moderators: Vec<String>,
    threads_count: i32,
    bans: Vec<String>,
    balance: u128,
    ft_deposits: Vec<(String, u128)>,
    ft_id: String,
}

impl View for ImageBoard {
    type V = BoardView;

    closed spec fn view(&self) -> BoardView {
        BoardView {
            threads: self.threads@.map_values(|e: (i32, Thread)| (e.0, e.1@)),
            owner: self.owner@,
            moderators: self.moderators@.map_values(|a: String| a@),
            threads_count: self.threads_count,
            bans: self.bans@.map_values(|a: String| a@),
            balance: self.balance,
            deposits: self.ft_deposits@.map_values(|e: (String, u128)| (e.0@, e.1)),
            ft_id: self.ft_id@,
        }
    }
}

/// The board's state laid out field by field, as it is kept in storage.
pub struct BoardParts {
    pub threads: Vec<(i32, Thread)>,
    pub owner: String,
    pub moderators: Vec<String>,
    pub threads_count: i32,
    pub bans: Vec<String>,
    pub balance: u128,
    pub ft_deposits: Vec<(String, u128)>,
    pub ft_id: String,
}

impl View for BoardParts {
    type V = BoardView;

    open spec fn view(&self) -> BoardView {
        BoardView {
            threads: self.threads@.map_values(|e: (i32, Thread)| (e.0, e.1@)),
            owner: self.owner@,
            moderators: self.moderators@.map_values(|a: String| a@),
            threads_count: self.threads_count,
            bans: self.bans@.map_values(|a: String| a@),
            balance: self.balance,
            deposits: self.ft_deposits@.map_values(|e: (String, u128)| (e.0@, e.1)),
            ft_id: self.ft_id@,
        }
    }
}

/// Whether a thread's answers are numbered as the board numbers them, and
/// are no more than `ANSWER_LIMIT`.
fn thread_is_wf(t: &Thread) -> (r: bool)
    ensures
        r == thread_wf(t@),
{
    let n = t.answers.len();
    if n > ANSWER_LIMIT as usize {
        return false;
    }
    let mut k: usize = 0;
    while k < n
        invariant
            n == t.answers@.len(),
            n <= ANSWER_LIMIT,
            k <= n,
            forall|j: int| 0 <= j < k ==> #[trigger] t@.answers[j].0 == answer_key(j),
        decreases n - k,
    {
        let expected: i32 = if k == 0 {
            0
        } else {
            k as i32 + 1
        };
        if t.answers[k].0 != expected {
            assert(t@.answers[k as int].0 != answer_key(k as int));
            return false;
        }
        k = k + 1;
    }
    true
}

/// Whether no account has two deposits.
fn accounts_are_distinct(d: &Vec<(String, u128)>) -> (r: bool)
    ensures
        r == accounts_distinct(d@.map_values(|e: (String, u128)| (e.0@, e.1))),
{
    let ghost s = d@.map_values(|e: (String, u128)| (e.0@, e.1));
    let n = d.len();
    let mut i: usize = 0;
    while i < n
        invariant
            n == s.len(),
            s == d@.map_values(|e: (String, u128)| (e.0@, e.1)),
            i <= n,
            forall|a: int, b: int| 0 <= a < i && 0 <= b < i && a != b ==> #[trigger] s[a].0 != #[trigger] s[b].0,
        decreases n - i,
    {
        let mut j: usize = 0;
        while j < i
            invariant
                n == s.len(),
                s == d@.map_values(|e: (String, u128)| (e.0@, e.1)),
                i < n,
                j <= i,
                forall|b: int| 0 <= b < j ==> #[trigger] s[b].0 != s[i as int].0,
            decreases i - j,
        {
            if d[j].0 == d[i].0 {
                assert(s[j as int].0 == s[i as int].0);
                return false;
            }
            j = j + 1;
        }
        i = i + 1;
    }
    true
}

/// Whether the parts make a well-formed board.
fn parts_wf(p: &BoardParts) -> (r: bool)
    ensures
        r == board_wf(p@),
{
    if p.threads_count < 0 || p.threads.len() > THREAD_LIMIT as usize {
        return false;
    }
    if !accounts_are_distinct(&p.ft_deposits) {
        return false;
    }
    let n = p.threads.len();
    let ghost s = p@.threads;
    let mut i: usize = 0;
    while i < n
        invariant
            n == s.len(),
            s == p@.threads,
            p.threads_count >= 0,
            n <= THREAD_LIMIT,
            accounts_distinct(p@.deposits),
            i <= n,
            forall|a: int| 0 <= a < i ==> 1 <= #[trigger] s[a].0 <= p.threads_count,
            forall|a: int| 0 <= a < i ==> thread_wf(#[trigger] s[a].1),
            forall|a: int, b: int| 0 <= a < i && 0 <= b < i && a != b ==> #[trigger] s[a].0 != #[trigger] s[b].0,
        decreases n - i,
    {
        let key = p.threads[i].0;
        assert(s[i as int].0 == key && s[i as int].1 == p.threads@[i as int].1@);
        if key < 1 || key > p.threads_count {
            return false;
        }
        if !thread_is_wf(&p.threads[i].1) {
            return false;
        }
        let mut j: usize = 0;
        while j < i
            invariant
                n == s.len(),
                s == p@.threads,
                i < n,
                j <= i,
                key == s[i as int].0,
                forall|b: int| 0 <= b < j ==> #[trigger] s[b].0 != key,
            decreases i - j,
        {
            if p.threads[j].0 == key {
                assert(s[j as int].0 == s[i as int].0);
                return false;
            }
            j = j + 1;
        }
        i = i + 1;
    }
    true
}

/// Whether `v` holds `x`.
fn list_contains(v: &Vec<String>, x: &String) -> (r: bool)
    ensures
        r == v@.map_values(|a: String| a@).contains(x@),
{
    match list_first_position(v, x) {
        Some(_) => true,
        None => false,
    }
}

/// The first position of `x` in `v`, if it holds it.
fn list_first_position(v: &Vec<String>, x: &String) -> (r: Option<usize>)
    ensures
        r.is_some() ==> r.unwrap() < v@.len() && is_first_position(v@.map_values(|a: String| a@), x@, r.unwrap() as int)
            && first_position(v@.map_values(|a: String| a@), x@) == r.unwrap() as int,
        r.is_some() <==> v@.map_values(|a: String| a@).contains(x@),
{
    let ghost s = v@.map_values(|a: String| a@);
    let mut i: usize = 0;
    while i < v.len()
        invariant
            s == v@.map_values(|a: String| a@),
            i <= v@.len(),
            forall|j: int| 0 <= j < i ==> s[j] != x@,
        decreases v@.len() - i,
    {
        if v[i] == *x {
            proof {
                lemma_first_position(s, x@, i as int);
            }
            return Some(i);
        }
        i = i + 1;
    }
    None
}

/// A copy of `v`.
fn list_strings(v: &Vec<String>) -> (r: Vec<String>)
    ensures
        r@.map_values(|a: String| a@) == v@.map_values(|a: String| a@),
{
    let mut r: Vec<String> = Vec::new();
    let mut i: usize = 0;
    while i < v.len()
        invariant
            i <= v@.len(),
            r@.len() == i,
            forall|j: int| 0 <= j < i ==> #[trigger] r@[j]@ == v@[j]@,
        decreases v@.len() - i,
    {
        r.push(v[i].clone());
        i = i + 1;
    }
    assert(r@.map_values(|a: String| a@) =~= v@.map_values(|a: String| a@));
    r
}

impl ImageBoard {
    /// The board's invariant.
    pub open spec fn wf(&self) -> bool {
        board_wf(self@)
    }

    /// A new board with the given owner and fungible token contract.
    pub fn new(owner: String, ft_id: String) -> (r: Self)
        ensures
            r.wf(),
            is_fresh(r@, owner@, ft_id@),
    {
        let r = ImageBoard {
            threads: Vec::new(),
            owner,
            moderators: Vec::new(),
            threads_count: 0,
            bans: Vec::new(),
            balance: 0,
            ft_deposits: Vec::new(),
            ft_id,
        };
        assert(r@.threads =~= Seq::<(i32, ThreadView)>::empty());
        assert(r@.moderators =~= Seq::<Seq<char>>::empty());
        assert(r@.bans =~= Seq::<Seq<char>>::empty());
        assert(r@.deposits =~= Seq::<(Seq<char>, u128)>::empty());
        r
    }

    /// The board laid out field by field.
    pub fn into_parts(self) -> (p: BoardParts)
        ensures
            p@ == self@,
    {
        BoardParts {
            threads: self.threads,
            owner: self.owner,
            moderators: self.moderators,
            threads_count: self.threads_count,
            bans: self.bans,
            balance: self.balance,
            ft_deposits: self.ft_deposits,
            ft_id: self.ft_id,
        }
    }

    /// The board the parts make, where they make a well-formed one.
    pub fn from_parts(p: BoardParts) -> (r: Option<Self>)
        ensures
            r.is_some() <==> board_wf(p@),
            r.is_some() ==> r.unwrap()@ == p@,
    {
        if !parts_wf(&p) {
            return None;
        }
        Some(
            ImageBoard {
                threads: p.threads,
                owner: p.owner,
                moderators: p.moderators,
                threads_count: p.threads_count,
                bans: p.bans,
                balance: p.balance,
                ft_deposits: p.ft_deposits,
                ft_id: p.ft_id,
            },
        )
    }

    /// The position of thread `number` in storage order, if it exists.
    fn find_thread(&self, number: i32) -> (r: Option<usize>)
        requires
            self.wf(),
        ensures
            r.is_some() <==> has_key(self@.threads, number),
            r.is_some() ==> r.unwrap() < self@.threads.len() && key_position(self@.threads, number)
                == r.unwrap() as int,
    {
        let mut i: usize = 0;
        while i < self.threads.len()
            invariant
                self.wf(),
                i <= self.threads@.len(),
                forall|j: int| 0 <= j < i ==> #[trigger] self@.threads[j].0 != number,
            decreases self.threads@.len() - i,
        {
            if self.threads[i].0 == number {
                proof {
                    lemma_key_position(self@.threads, number, i as int);
                }
                return Some(i);
            }
            i = i + 1;
        }
        None
    }

    /// Whether thread `number` exists.
    pub fn has_thread(&self, number: i32) -> (r: bool)
        requires
            self.wf(),
        ensures
            r == has_key(self@.threads, number),
    {
        self.find_thread(number).is_some()
    }

    /// The owner of the board.
    pub fn get_owner(&self) -> (r: String)
        ensures
            r@ == self@.owner,
    {
        self.owner.clone()
    }

    /// The number of threads ever posted.
    pub fn get_count(&self) -> (r: i32)
        ensures
            r == self@.threads_count,
    {
        self.threads_count
    }

    /// The token balance the board has received.
    pub fn get_balance(&self) -> (r: u128)
        ensures
            r == self@.balance,
    {
        self.balance
    }

    /// Every thread as (number, author, text, premium), in storage order.
    pub fn get_threads(&self) -> (r: Vec<(i32, String, String, bool)>)
        ensures
            r@.len() == self@.threads.len(),
            forall|i: int|
                0 <= i < r@.len() ==> {
                    &&& (#[trigger] r@[i]).0 == self@.threads[i].0
                    &&& r@[i].1@ == self@.threads[i].1.author
                    &&& r@[i].2@ == self@.threads[i].1.text
                    &&& r@[i].3 == self@.threads[i].1.premium
                },
    {
        let mut r: Vec<(i32, String, String, bool)> = Vec::new();
        let mut i: usize = 0;
        while i < self.threads.len()
            invariant
                i <= self.threads@.len(),
                r@.len() == i,
                forall|j: int|
                    0 <= j < i ==> {
                        &&& (#[trigger] r@[j]).0 == self@.threads[j].0
                        &&& r@[j].1@ == self@.threads[j].1.author
                        &&& r@[j].2@ == self@.threads[j].1.text
                        &&& r@[j].3 == self@.threads[j].1.premium
                    },
            decreases self.threads@.len() - i,
        {
            let e = &self.threads[i];
            r.push((e.0, e.1.author.clone(), e.1.text.clone(), e.1.premium));
            i = i + 1;
        }
        r
    }

    /// The text of thread `number`, or "thread not found".
    pub fn get_the_thread(&self, number: i32) -> (r: String)
        requires
            self.wf(),
        ensures
            r@ == thread_text(self@, number),
    {
        match self.find_thread(number) {
            Some(i) => self.threads[i].1.text.clone(),
            None => String::from_str("thread not found"),
        }
    }

    /// Whether `name` is a moderator.
    pub fn is_moder(&self, name: &String) -> (r: bool)
        ensures
            r == self@.moderators.contains(name@),
    {
        list_contains(&self.moderators, name)
    }

    /// Whether `name` is banned.
    pub fn is_banned(&self, name: &String) -> (r: bool)
        ensures
            r == self@.bans.contains(name@),
    {
        list_contains(&self.bans, name)
    }

    /// The moderators, in storage order.
    pub fn get_moders(&self) -> (r: Vec<String>)
        ensures
            r@.map_values(|s: String| s@) == self@.moderators,
    {
        list_strings(&self.moderators)
    }

    /// The banned accounts, in storage order.
    pub fn get_bans(&self) -> (r: Vec<String>)
        ensures
            r@.map_values(|s: String| s@) == self@.bans,
    {
        list_strings(&self.bans)
    }

    /// Whether `caller` is staff: a moderator or the owner.
    fn is_staff(&self, caller: &String) -> (r: bool)
        ensures
            r == is_staff(self@, caller@),
    {
        let m = self.is_moder(caller);
        let o = self.owner == *caller;
        m || o
    }

    /// Thread `key` removed by `caller`: staff remove it, if it exists;
    /// anyone else changes nothing.
    pub fn remove_thread_as(&mut self, caller: &String, key: i32)
        requires
            old(self).wf(),
        ensures
            final(self).wf(),
            final(self)@ == after_remove_thread(old(self)@, caller@, key),
    {
        if self.is_staff(caller) {
            match self.find_thread(key) {
                Some(i) => {
                    let ghost v = self@;
                    proof {
                        lemma_wf_swap_remove(v, i as int);
                    }
                    self.threads.swap_remove(i);
                    assert(self@ =~= with_threads(v, swap_removed(v.threads, i as int)));
                },
                None => {},
            }
        }
    }

    /// Thread `number` closed by `caller`: staff close it; anyone else
    /// changes nothing. Staff may only name an existing thread.
    pub fn ban_thread_as(&mut self, caller: &String, number: i32)
        requires
            old(self).wf(),
            is_staff(old(self)@, caller@) ==> has_key(old(self)@.threads, number),
        ensures
            final(self).wf(),
            final(self)@ == after_ban_thread(old(self)@, caller@, number),
    {
        if self.is_staff(caller) {
            let i = self.find_thread(number).unwrap();
            let ghost v = self@;
            let ghost t = ThreadView { is_closed: true, ..v.threads[i as int].1 };
            proof {
                lemma_wf_update(v, i as int, t);
            }
            self.threads[i].1.is_closed = true;
            assert(self@.threads =~= v.threads.update(i as int, (number, t)));
        }
    }

    /// `user` made a moderator by `caller`: the owner appends it and is told
    /// "success"; anyone else is told "denied".
    pub fn add_moder_as(&mut self, caller: &String, user_id: String) -> (r: String)
        requires
            old(self).wf(),
        ensures
            final(self).wf(),
            final(self)@ == after_add_moder(old(self)@, caller@, user_id@),
            r@ == owner_reply(old(self)@, caller@),
    {
        if *caller == self.owner {
            self.moderators.push(user_id);
            String::from_str("success")
        } else {
            String::from_str("denied")
        }
    }

    /// `user` removed from the moderators by `caller`: the owner removes its
    /// first occurrence, moving the last moderator into its place, and is
    /// told "success"; anyone else is told "denied". The owner may only name
    /// a moderator.
    pub fn delete_moder_as(&mut self, caller: &String, user_id: String) -> (r: String)
        requires
            old(self).wf(),
            caller@ == old(self)@.owner ==> old(self)@.moderators.contains(user_id@),
        ensures
            final(self).wf(),
            final(self)@ == after_delete_moder(old(self)@, caller@, user_id@),
            r@ == owner_reply(old(self)@, caller@),
    {
        if *caller == self.owner {
            let index = list_first_position(&self.moderators, &user_id).unwrap();
            self.moderators.swap_remove(index);
            String::from_str("success")
        } else {
            String::from_str("denied")
        }
    }

    /// `user` banned by `caller`: staff append the ban; anyone else changes
    /// nothing.
    pub fn ban_as(&mut self, caller: &String, user: &String)
        requires
            old(self).wf(),
        ensures
            final(self).wf(),
            final(self)@ == after_ban(old(self)@, caller@, user@),
    {
        if self.is_staff(caller) {
            self.bans.push(user.clone());
        }
    }

    /// The ban on `user` lifted by `caller`: staff remove its first
    /// occurrence, moving the last ban into its place; anyone else changes
    /// nothing. Staff may only name a banned account.
    pub fn remove_ban_as(&mut self, caller: &String, user: String)
        requires
            old(self).wf(),
            is_staff(old(self)@, caller@) ==> old(self)@.bans.contains(user@),
        ensures
            final(self).wf(),
            final(self)@ == after_remove_ban(old(self)@, caller@, user@),
    {
        if self.is_staff(caller) {
            let index = list_first_position(&self.bans, &user).unwrap();
            self.bans.swap_remove(index);
        }
    }

    /// The transfer that rewards `account`: one yoctoNEAR's worth of the
    /// board's token, with one yoctoNEAR attached.
    pub fn pay_ft(&self, account: &String) -> (r: FtTransfer)
        ensures
            r.token@ == self@.ft_id,
            r.receiver@ == account@,
            r.amount == ONE_YOCTO,
            r.deposit == ONE_YOCTO,
    {
        FtTransfer { token: self.ft_id.clone(), receiver: account.clone(), amount: ONE_YOCTO, deposit: ONE_YOCTO }
    }

    /// The position of the thread with the smallest number.
    fn find_oldest(&self) -> (r: usize)
        requires
            self.wf(),
            self@.threads.len() > 0,
        ensures
            r < self@.threads.len(),
            is_oldest(self@.threads, r as int),
            oldest_position(self@.threads) == r as int,
    {
        let mut best: usize = 0;
        let mut i: usize = 1;
        while i < self.threads.len()
            invariant
                self.wf(),
                1 <= i <= self@.threads.len(),
                best < i,
                forall|j: int| 0 <= j < i ==> self@.threads[best as int].0 <= #[trigger] self@.threads[j].0,
            decreases self@.threads.len() - i,
        {
            if self.threads[i].0 < self.threads[best].0 {
                best = i;
            }
            i = i + 1;
        }
        proof {
            lemma_oldest_position(self@.threads, best as int);
        }
        best
    }

    /// A thread posted by `author` with `deposit` attached; any deposit makes
    /// it premium. A banned author posts nothing. Any other gets the next
    /// number, after the oldest thread has gone from a board that holds
    /// `THREAD_LIMIT` threads, and the author of the `REWARD_THREAD`-th
    /// thread is owed a reward, which is returned.
    pub fn add_thread_as(&mut self, author: String, deposit: u128, text: String) -> (r: Option<FtTransfer>)
        requires
            old(self).wf(),
            posts(old(self)@, author@) ==> old(self)@.threads_count < i32::MAX,
        ensures
            final(self).wf(),
            final(self)@ == after_add_thread(old(self)@, author@, deposit, text@),
            reward_for(old(self)@, author@, r),
    {
        let ghost v0 = self@;
        if self.is_banned(&author) {
            return None;
        }
        let premium = deposit > 0;
        let is_closed: bool = false;
        if self.threads.len() >= THREAD_LIMIT as usize {
            let oldest = self.find_oldest();
            proof {
                lemma_wf_swap_remove(v0, oldest as int);
            }
            self.threads.swap_remove(oldest);
            assert(self@ =~= with_threads(v0, swap_removed(v0.threads, oldest as int)));
        }
        let ghost v1 = self@;
        assert(v1 == trimmed(v0));
        self.threads_count = self.threads_count + 1;
        let mut reward: Option<FtTransfer> = None;
        if self.threads_count == REWARD_THREAD {
            reward = Some(self.pay_ft(&author));
        }
        let n = self.threads_count;
        let answers: Vec<(i32, String)> = Vec::new();
        let message = Thread { author, premium, text, is_closed, answers };
        proof {
            assert(message@.answers =~= Seq::<(i32, Seq<char>)>::empty());
            lemma_wf_push(v1, message@);
        }
        self.threads.push((n, message));
        assert(self@ =~= after_add_thread(v0, message@.author, deposit, message@.text));
        reward
    }

    /// An answer that `author` posts to thread `number`. A closed thread or
    /// a banned author takes nothing. A thread holding `ANSWER_LIMIT`
    /// answers is closed instead. Otherwise the answer is appended under the
    /// number `answer_key` gives its position. The reply says which.
    pub fn add_answers_as(&mut self, author: &String, thread_number: i32, text: String) -> (r: String)
        requires
            old(self).wf(),
            has_key(old(self)@.threads, thread_number),
        ensures
            final(self).wf(),
            final(self)@ == after_add_answer(old(self)@, author@, thread_number, text@),
            r@ == answer_reply(old(self)@, author@, thread_number),
    {
        let i = self.find_thread(thread_number).unwrap();
        let ghost v = self@;
        let ghost t = v.threads[i as int].1;
        assert(thread_wf(t));
        if self.threads[i].1.is_closed {
            return String::from_str("thread is closed");
        }
        if self.is_banned(author) {
            return String::from_str("banned");
        }
        let count = self.threads[i].1.answers.len();
        if count == 0 {
            proof {
                let t2 = answered(t, text@);
                assert(t2.answers =~= seq![(0i32, text@)]);
                lemma_wf_update(v, i as int, t2);
            }
            self.threads[i].1.answers.push((0, text));
            assert(self.threads@[i as int].1@.answers =~= answered(t, text@).answers);
            assert(self.threads@[i as int].1@ =~= answered(t, text@));
            assert(self@.threads =~= v.threads.update(i as int, (thread_number, answered(t, text@))));
            String::from_str("first post")
        } else if count == ANSWER_LIMIT as usize {
            proof {
                lemma_wf_update(v, i as int, answered(t, text@));
            }
            self.threads[i].1.is_closed = true;
            assert(self@.threads =~= v.threads.update(i as int, (thread_number, answered(t, text@))));
            String::from_str("thread is closed")
        } else {
            let key: i32 = count as i32 + 1;
            proof {
                let t2 = answered(t, text@);
                assert forall|k: int| 0 <= k < t2.answers.len() implies #[trigger] t2.answers[k].0
                    == answer_key(k) by {
                    if k < t.answers.len() {
                        assert(t2.answers[k] == t.answers[k]);
                    }
                }
                lemma_wf_update(v, i as int, t2);
            }
            self.threads[i].1.answers.push((key, text));
            assert(self.threads@[i as int].1@.answers =~= answered(t, text@).answers);
            assert(self.threads@[i as int].1@ =~= answered(t, text@));
            assert(self@.threads =~= v.threads.update(i as int, (thread_number, answered(t, text@))));
            String::from_str("succes")
        }
    }

    /// The answers of thread `number`, each followed by a line break.
    pub fn get_thread_answers(&self, thread_number: i32) -> (r: String)
        requires
            self.wf(),
            has_key(self@.threads, thread_number),
        ensures
            r@ == answers_text(value_of(self@.threads, thread_number).answers),
    {
        let i = self.find_thread(thread_number).unwrap();
        let answers = &self.threads[i].1.answers;
        let ghost a = value_of(self@.threads, thread_number).answers;
        assert(a == answers@.map_values(|x: (i32, String)| (x.0, x.1@)));
        let mut r = String::new();
        let mut j: usize = 0;
        proof {
            reveal_strlit("\n");
            assert(a.subrange(0, 0) =~= Seq::<(i32, Seq<char>)>::empty());
        }
        while j < answers.len()
            invariant
                a == answers@.map_values(|x: (i32, String)| (x.0, x.1@)),
                j <= answers@.len(),
                r@ == answers_text(a.subrange(0, j as int)),
                "\n"@ == seq!['\n'],
            decreases answers@.len() - j,
        {
            r.append(answers[j].1.as_str());
            r.append("\n");
            assert(a.subrange(0, j + 1).drop_last() =~= a.subrange(0, j as int));
            j = j + 1;
        }
        assert(a.subrange(0, j as int) =~= a);
        r
    }

    /// A token deposit of `amount` received from `account_id`: the balance
    /// grows by it, and none of it is returned.
    pub fn finish_deposit(&mut self, account_id: String, amount: u128, msg: String) -> (r: u128)
        requires
            old(self).wf(),
            old(self)@.balance + amount <= u128::MAX,
        ensures
            final(self).wf(),
            final(self)@ == (BoardView { balance: (old(self)@.balance + amount) as u128, ..old(self)@ }),
            r == 0,
    {
        self.balance = self.balance + amount;
        0
    }

    /// The token deposit kept for `account_id`, zero where none is.
    pub fn storage_deposits(&self, account_id: String) -> (r: u128)
        requires
            self.wf(),
        ensures
            r == deposit_of(self@, account_id@),
    {
        let ghost d = self@.deposits;
        let mut i: usize = 0;
        while i < self.ft_deposits.len()
            invariant
                self.wf(),
                d == self@.deposits,
                i <= d.len(),
                forall|j: int| 0 <= j < i ==> #[trigger] d[j].0 != account_id@,
            decreases d.len() - i,
        {
            if self.ft_deposits[i].0 == account_id {
                proof {
                    let k = choose|k: int| 0 <= k < d.len() && #[trigger] d[k].0 == account_id@;
                    assert(d[i as int].0 == account_id@);
                    assert(k == i);
                }
                return self.ft_deposits[i].1;
            }
            i = i + 1;
        }
        0
    }

    /// Opens a zero deposit for an account that has none.
    fn register_account(&mut self, account_id: &String)
        requires
            old(self).wf(),
            !has_account(old(self)@.deposits, account_id@),
        ensures
            final(self).wf(),
            final(self)@ == (BoardView {
                deposits: old(self)@.deposits.push((account_id@, 0)),
                ..old(self)@
            }),
    {
        let ghost d = self@.deposits;
        self.ft_deposits.push((account_id.clone(), 0));
        assert(self@.deposits =~= d.push((account_id@, 0)));
        assert forall|a: int, b: int| 0 <= a < self@.deposits.len() && 0 <= b < self@.deposits.len() && a != b
            implies #[trigger] self@.deposits[a].0 != #[trigger] self@.deposits[b].0 by {
            if a < d.len() && b < d.len() {
                assert(self@.deposits[a] == d[a] && self@.deposits[b] == d[b]);
            } else if a < d.len() {
                assert(self@.deposits[a] == d[a]);
            } else if b < d.len() {
                assert(self@.deposits[b] == d[b]);
            }
        }
    }

    /// A token transfer of `amount` from `sender_id`, made by `caller`: taken
    /// as a deposit where the caller is the sender, refused otherwise.
    pub fn ft_on_transfer_as(&mut self, caller: &String, sender_id: String, amount: u128, msg: String) -> (r: Result<u128, BoardError>)
        requires
            old(self).wf(),
            old(self)@.balance + amount <= u128::MAX,
        ensures
            final(self).wf(),
            caller@ == sender_id@ ==> r == Ok::<u128, BoardError>(0) && final(self)@ == (BoardView {
                balance: (old(self)@.balance + amount) as u128,
                ..old(self)@
            }),
            caller@ != sender_id@ ==> r == Err::<u128, BoardError>(BoardError::NotSender) && final(self)@ == old(self)@,
    {
        if *caller != sender_id {
            return Err(BoardError::NotSender);
        }
        Ok(self.finish_deposit(sender_id, amount, msg))
    }

    /// Whether `caller` is the owner.
    pub fn assert_owner_as(&self, caller: &String) -> (r: Result<(), BoardError>)
        ensures
            r == (if caller@ == self@.owner { Ok::<(), BoardError>(()) } else { Err(BoardError::NotOwner) }),
    {
        if self.owner == *caller {
            Ok(())
        } else {
            Err(BoardError::NotOwner)
        }
    }

    // -----------------------------------------------------------------------
    // The calls as the contract receives them: the caller and the attached
    // deposit are those of the call being executed.

    /// A new board owned by the calling account (see `Default`).
    pub fn new_default() -> (r: Self)
        ensures
            r.wf(),
            is_fresh(r@, r@.owner, r@.owner),
    {
        Self::default()
    }

    /// Whether the calling account is the owner: `Err(NotOwner)` where it is
    /// not.
    pub fn assert_owner(&self) -> (r: Result<(), BoardError>)
        ensures
            exists|c: Seq<char>| r == #[trigger] owner_check(self@, c),
    {
        let caller = predecessor_account();
        let r = self.assert_owner_as(&caller);
        assert(r == owner_check(self@, caller@));
        r
    }

    /// A thread posted by the calling account with the attached deposit (see
    /// `add_thread_as`). Where the author is not banned and the count cannot
    /// grow, nothing changes and `Err(CountOverflow)` is returned.
    pub fn add_thread(&mut self, text: String) -> (r: Result<Option<FtTransfer>, BoardError>)
        requires
            old(self).wf(),
        ensures
            final(self).wf(),
            exists|a: Seq<char>, d: u128| #[trigger] thread_posted(old(self)@, final(self)@, a, d, text@, r),
    {
        let ghost v0 = self@;
        let ghost t = text@;
        let author = predecessor_account();
        let deposit = attached_deposit();
        if self.threads_count == i32::MAX && !self.is_banned(&author) {
            let r = Err(BoardError::CountOverflow);
            assert(thread_posted(v0, self@, author@, deposit, t, r));
            return r;
        }
        let ghost a = author@;
        let reward = self.add_thread_as(author, deposit, text);
        let r = Ok(reward);
        assert(thread_posted(v0, self@, a, deposit, t, r));
        r
    }

    /// Thread `key` removed by the calling account (see `remove_thread_as`).
    pub fn remove_thread(&mut self, key: &i32)
        requires
            old(self).wf(),
        ensures
            final(self).wf(),
            exists|c: Seq<char>| final(self)@ == #[trigger] after_remove_thread(old(self)@, c, *key),
    {
        let ghost v0 = self@;
        let caller = predecessor_account();
        self.remove_thread_as(&caller, *key);
        assert(self@ == after_remove_thread(v0, caller@, *key));
    }

    /// Thread `number` closed by the calling account (see `ban_thread_as`).
    /// Where the caller is staff and there is no such thread, nothing changes
    /// and `Err(ThreadNotFound)` is returned.
    pub fn ban_thread(&mut self, number: i32) -> (r: Result<(), BoardError>)
        requires
            old(self).wf(),
        ensures
            final(self).wf(),
            exists|c: Seq<char>| #[trigger] thread_banned(old(self)@, final(self)@, c, number, r),
    {
        let ghost v0 = self@;
        let caller = predecessor_account();
        if self.is_staff(&caller) && !self.has_thread(number) {
            let r = Err(BoardError::ThreadNotFound);
            assert(thread_banned(v0, self@, caller@, number, r));
            return r;
        }
        self.ban_thread_as(&caller, number);
        let r = Ok(());
        assert(thread_banned(v0, self@, caller@, number, r));
        r
    }

    /// `user_id` made a moderator by the calling account (see
    /// `add_moder_as`).
    pub fn add_moder(&mut self, user_id: String) -> (r: String)
        requires
            old(self).wf(),
        ensures
            final(self).wf(),
            exists|c: Seq<char>| final(self)@ == #[trigger] after_add_moder(old(self)@, c, user_id@)
                && r@ == owner_reply(old(self)@, c),
    {
        let ghost v0 = self@;
        let ghost u = user_id@;
        let caller = predecessor_account();
        let r = self.add_moder_as(&caller, user_id);
        assert(self@ == after_add_moder(v0, caller@, u) && r@ == owner_reply(v0, caller@));
        r
    }

    /// `user_id` removed from the moderators by the calling account (see
    /// `delete_moder_as`). Where the caller is the owner and `user_id` is no
    /// moderator, nothing changes and `Err(NotAModerator)` is returned.
    pub fn delete_moder(&mut self, user_id: String) -> (r: Result<String, BoardError>)
        requires
            old(self).wf(),
        ensures
            final(self).wf(),
            exists|c: Seq<char>| #[trigger] moder_deleted(old(self)@, final(self)@, c, user_id@, r),
    {
        let ghost v0 = self@;
        let ghost u = user_id@;
        let caller = predecessor_account();
        if caller == self.owner && !self.is_moder(&user_id) {
            let r = Err(BoardError::NotAModerator);
            assert(moder_deleted(v0, self@, caller@, u, r));
            return r;
        }
        let reply = self.delete_moder_as(&caller, user_id);
        let r = Ok(reply);
        assert(moder_deleted(v0, self@, caller@, u, r));
        r
    }

    /// An answer posted by the calling account to thread `thread_number`
    /// (see `add_answers_as`).
    pub fn add_answers(&mut self, thread_number: i32, text: String) -> (r: String)
        requires
            old(self).wf(),
            has_key(old(self)@.threads, thread_number),
        ensures
            final(self).wf(),
            exists|a: Seq<char>| final(self)@ == #[trigger] after_add_answer(old(self)@, a, thread_number, text@)
                && r@ == answer_reply(old(self)@, a, thread_number),
    {
        let ghost v0 = self@;
        let ghost t = text@;
        let author = predecessor_account();
        let r = self.add_answers_as(&author, thread_number, text);
        assert(self@ == after_add_answer(v0, author@, thread_number, t) && r@ == answer_reply(
            v0,
            author@,
            thread_number,
        ));
        r
    }

    /// `user` banned by the calling account (see `ban_as`).
    pub fn ban(&mut self, user: &String)
        requires
            old(self).wf(),
        ensures
            final(self).wf(),
            exists|c: Seq<char>| final(self)@ == #[trigger] after_ban(old(self)@, c, user@),
    {
        let ghost v0 = self@;
        let caller = predecessor_account();
        self.ban_as(&caller, user);
        assert(self@ == after_ban(v0, caller@, user@));
    }

    /// The ban on `user` lifted by the calling account (see
    /// `remove_ban_as`). Where the caller is staff and `user` is not banned,
    /// nothing changes and `Err(NotBanned)` is returned.
    pub fn remove_ban(&mut self, user: String) -> (r: Result<(), BoardError>)
        requires
            old(self).wf(),
        ensures
            final(self).wf(),
            exists|c: Seq<char>| #[trigger] ban_removed(old(self)@, final(self)@, c, user@, r),
    {
        let ghost v0 = self@;
        let ghost u = user@;
        let caller = predecessor_account();
        if self.is_staff(&caller) && !self.is_banned(&user) {
            let r = Err(BoardError::NotBanned);
            assert(ban_removed(v0, self@, caller@, u, r));
            return r;
        }
        self.remove_ban_as(&caller, user);
        let r = Ok(());
        assert(ban_removed(v0, self@, caller@, u, r));
        r
    }

    /// A token transfer of `amount` from `sender_id`, made by the calling
    /// account (see `ft_on_transfer_as`).
    pub fn ft_on_transfer(&mut self, sender_id: String, amount: u128, msg: String) -> (r: Result<u128, BoardError>)
        requires
            old(self).wf(),
            old(self)@.balance + amount <= u128::MAX,
        ensures
            final(self).wf(),
            r == Ok::<u128, BoardError>(0) && final(self)@ == (BoardView {
                balance: (old(self)@.balance + amount) as u128,
                ..old(self)@
            }) || r == Err::<u128, BoardError>(BoardError::NotSender) && final(self)@ == old(self)@,
    {
        let caller = predecessor_account();
        self.ft_on_transfer_as(&caller, sender_id, amount, msg)
    }
}

impl Default for ImageBoard {
    /// A new board owned by the calling account. No token contract is named
    /// at creation here, so the owner's account stands for it.
    fn default() -> (r: Self)
        ensures
            r.wf(),
            is_fresh(r@, r@.owner, r@.owner),
    {
        let owner = predecessor_account();
        let ft_id = owner.clone();
        ImageBoard::new(owner, ft_id)
    }
}

} // verus!
