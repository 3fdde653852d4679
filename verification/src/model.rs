//! The board as mathematics: its state as plain sequences and maps, and what
//! each operation makes of it.

use vstd::prelude::*;

verus! {

/// One yoctoNEAR, the smallest amount of NEAR.
pub const ONE_YOCTO: u128 = 1;

/// The board keeps at most this many threads: posting to a full board first
/// removes its oldest thread.
pub const THREAD_LIMIT: i32 = 500;

/// A thread that holds this many answers is closed by the next answer.
pub const ANSWER_LIMIT: i32 = 500;

/// The thread with this number earns its author a token reward.
pub const REWARD_THREAD: i32 = 3;

/// A thread: who opened it, whether a deposit came with it, its text,
/// whether it is closed, and its answers by number, in storage order.
#[verifier::ext_equal]
pub struct ThreadView {
    pub author: Seq<char>,
    pub premium: bool,
    pub text: Seq<char>,
    pub is_closed: bool,
    pub answers: Seq<(i32, Seq<char>)>,
}

/// The whole board. `threads` holds the threads by number in storage order;
/// `deposits` the token deposits by account, in the order they were opened.
#[verifier::ext_equal]
pub struct BoardView {
    pub threads: Seq<(i32, ThreadView)>,
    pub owner: Seq<char>,
    pub moderators: Seq<Seq<char>>,
    pub threads_count: i32,
    pub bans: Seq<Seq<char>>,
    pub balance: u128,
    pub deposits: Seq<(Seq<char>, u128)>,
    pub ft_id: Seq<char>,
}

// ---------------------------------------------------------------------------
// Sequences of entries keyed by a number, kept the way the board keeps them:
// a new key goes at the end, and a removed entry is replaced by the last one.

pub open spec fn has_key<A>(s: Seq<(i32, A)>, key: i32) -> bool {
    exists|i: int| 0 <= i < s.len() && #[trigger] s[i].0 == key
}

pub open spec fn keys_distinct<A>(s: Seq<(i32, A)>) -> bool {
    forall|i: int, j: int| 0 <= i < s.len() && 0 <= j < s.len() && i != j ==> #[trigger] s[i].0 != #[trigger] s[j].0
}

/// Where `key` stands in `s`, where it does.
pub open spec fn key_position<A>(s: Seq<(i32, A)>, key: i32) -> int {
    choose|i: int| 0 <= i < s.len() && #[trigger] s[i].0 == key
}

/// `s` with its element at `i` replaced by its last element, and one shorter.
pub open spec fn swap_removed<A>(s: Seq<A>, i: int) -> Seq<A> {
    s.update(i, s.last()).drop_last()
}

pub open spec fn without_key<A>(s: Seq<(i32, A)>, key: i32) -> Seq<(i32, A)> {
    if has_key(s, key) {
        swap_removed(s, key_position(s, key))
    } else {
        s
    }
}

pub open spec fn value_of<A>(s: Seq<(i32, A)>, key: i32) -> A {
    s[key_position(s, key)].1
}

/// Whether position `i` holds the smallest key of `s`.
pub open spec fn is_oldest<A>(s: Seq<(i32, A)>, i: int) -> bool {
    &&& 0 <= i < s.len()
    &&& forall|j: int| 0 <= j < s.len() ==> s[i].0 <= #[trigger] s[j].0
}

/// The position of the smallest key of `s`, where `s` is not empty.
pub open spec fn oldest_position<A>(s: Seq<(i32, A)>) -> int {
    choose|i: int| is_oldest(s, i)
}

pub open spec fn has_account(s: Seq<(Seq<char>, u128)>, account: Seq<char>) -> bool {
    exists|i: int| 0 <= i < s.len() && #[trigger] s[i].0 == account
}

pub open spec fn accounts_distinct(s: Seq<(Seq<char>, u128)>) -> bool {
    forall|i: int, j: int| 0 <= i < s.len() && 0 <= j < s.len() && i != j ==> #[trigger] s[i].0 != #[trigger] s[j].0
}

/// The first position of `x` in `s`, where `s` holds it.
pub open spec fn first_position(s: Seq<Seq<char>>, x: Seq<char>) -> int {
    choose|i: int| is_first_position(s, x, i)
}

pub open spec fn is_first_position(s: Seq<Seq<char>>, x: Seq<char>, i: int) -> bool {
    &&& 0 <= i < s.len()
    &&& s[i] == x
    &&& forall|j: int| 0 <= j < i ==> s[j] != x
}

// ---------------------------------------------------------------------------
// Well-formedness.

/// The key of the answer at position `k`: the first answer is numbered 0,
/// and each later one one past its position (number 1 is never used).
pub open spec fn answer_key(k: int) -> int {
    if k == 0 {
        0
    } else {
        k + 1
    }
}

pub open spec fn thread_wf(t: ThreadView) -> bool {
    &&& t.answers.len() <= ANSWER_LIMIT
    &&& forall|k: int| 0 <= k < t.answers.len() ==> #[trigger] t.answers[k].0 == answer_key(k)
}

/// At most `THREAD_LIMIT` threads, numbered from one up to the count, each
/// number once, every thread well formed, and one deposit per account.
pub open spec fn board_wf(v: BoardView) -> bool {
    &&& v.threads_count >= 0
    &&& v.threads.len() <= THREAD_LIMIT
    &&& accounts_distinct(v.deposits)
    &&& keys_distinct(v.threads)
    &&& forall|i: int| 0 <= i < v.threads.len() ==> 1 <= #[trigger] v.threads[i].0 <= v.threads_count
    &&& forall|i: int| 0 <= i < v.threads.len() ==> thread_wf(#[trigger] v.threads[i].1)
}

// ---------------------------------------------------------------------------
// What the operations do.

/// The owner and the moderators are the board's staff.
pub open spec fn is_staff(v: BoardView, account: Seq<char>) -> bool {
    v.moderators.contains(account) || v.owner == account
}

/// A board with no thread, no moderator, no ban and no deposit.
pub open spec fn is_fresh(v: BoardView, owner: Seq<char>, ft_id: Seq<char>) -> bool {
    &&& v.threads == Seq::<(i32, ThreadView)>::empty()
    &&& v.owner == owner
    &&& v.moderators == Seq::<Seq<char>>::empty()
    &&& v.threads_count == 0
    &&& v.bans == Seq::<Seq<char>>::empty()
    &&& v.balance == 0
    &&& v.deposits == Seq::<(Seq<char>, u128)>::empty()
    &&& v.ft_id == ft_id
}

pub open spec fn with_threads(v: BoardView, threads: Seq<(i32, ThreadView)>) -> BoardView {
    BoardView { threads, ..v }
}

pub open spec fn with_moderators(v: BoardView, moderators: Seq<Seq<char>>) -> BoardView {
    BoardView { moderators, ..v }
}

pub open spec fn with_bans(v: BoardView, bans: Seq<Seq<char>>) -> BoardView {
    BoardView { bans, ..v }
}

/// Staff remove the thread `key`, if there is one; anyone else changes nothing.
pub open spec fn after_remove_thread(v: BoardView, caller: Seq<char>, key: i32) -> BoardView {
    if is_staff(v, caller) {
        with_threads(v, without_key(v.threads, key))
    } else {
        v
    }
}

/// Staff close the thread `number`; anyone else changes nothing.
pub open spec fn after_ban_thread(v: BoardView, caller: Seq<char>, number: i32) -> BoardView {
    if is_staff(v, caller) {
        let t = value_of(v.threads, number);
        with_threads(
            v,
            v.threads.update(key_position(v.threads, number), (number, ThreadView { is_closed: true, ..t })),
        )
    } else {
        v
    }
}

/// The owner appends a moderator; anyone else changes nothing.
pub open spec fn after_add_moder(v: BoardView, caller: Seq<char>, user: Seq<char>) -> BoardView {
    if caller == v.owner {
        with_moderators(v, v.moderators.push(user))
    } else {
        v
    }
}

/// The owner removes the first occurrence of a moderator, moving the last
/// one into its place; anyone else changes nothing.
pub open spec fn after_delete_moder(v: BoardView, caller: Seq<char>, user: Seq<char>) -> BoardView {
    if caller == v.owner {
        with_moderators(v, swap_removed(v.moderators, first_position(v.moderators, user)))
    } else {
        v
    }
}

/// What the owner is told ("success") and what anyone else ("denied").
pub open spec fn owner_reply(v: BoardView, caller: Seq<char>) -> Seq<char> {
    if caller == v.owner {
        "success"@
    } else {
        "denied"@
    }
}

/// Staff append a ban; anyone else changes nothing.
pub open spec fn after_ban(v: BoardView, caller: Seq<char>, user: Seq<char>) -> BoardView {
    if is_staff(v, caller) {
        with_bans(v, v.bans.push(user))
    } else {
        v
    }
}

/// Staff remove the first occurrence of a ban, moving the last one into its
/// place; anyone else changes nothing.
pub open spec fn after_remove_ban(v: BoardView, caller: Seq<char>, user: Seq<char>) -> BoardView {
    if is_staff(v, caller) {
        with_bans(v, swap_removed(v.bans, first_position(v.bans, user)))
    } else {
        v
    }
}

/// The thread that `author` opens with `text` and `deposit` attached: any
/// deposit makes it premium.
pub open spec fn new_thread(author: Seq<char>, deposit: u128, text: Seq<char>) -> ThreadView {
    ThreadView { author, premium: deposit > 0, text, is_closed: false, answers: Seq::empty() }
}

/// Before a thread is posted to a full board, its oldest thread goes.
pub open spec fn trimmed(v: BoardView) -> BoardView {
    if v.threads.len() >= THREAD_LIMIT {
        with_threads(v, swap_removed(v.threads, oldest_position(v.threads)))
    } else {
        v
    }
}

/// Whether posting succeeds: the author is not banned.
pub open spec fn posts(v: BoardView, author: Seq<char>) -> bool {
    !v.bans.contains(author)
}

/// A thread posted by an author who is not banned: on a full board the
/// oldest thread goes first, and the new one gets the next number. A banned
/// author changes nothing.
pub open spec fn after_add_thread(v: BoardView, author: Seq<char>, deposit: u128, text: Seq<char>) -> BoardView {
    if posts(v, author) {
        let t = trimmed(v);
        let n = (t.threads_count + 1) as i32;
        BoardView { threads_count: n, threads: t.threads.push((n, new_thread(author, deposit, text))), ..t }
    } else {
        v
    }
}

/// The answer that `author` posts to thread `number` is refused ("thread is
/// closed", "banned"), taken ("first post", "succes"), or closes the full
/// thread ("thread is closed").
pub open spec fn answer_reply(v: BoardView, author: Seq<char>, number: i32) -> Seq<char> {
    let t = value_of(v.threads, number);
    if t.is_closed {
        "thread is closed"@
    } else if v.bans.contains(author) {
        "banned"@
    } else if t.answers.len() == 0 {
        "first post"@
    } else if t.answers.len() == ANSWER_LIMIT {
        "thread is closed"@
    } else {
        "succes"@
    }
}

/// The thread after the answer: one more answer, or closed when full.
pub open spec fn answered(t: ThreadView, text: Seq<char>) -> ThreadView {
    if t.answers.len() == ANSWER_LIMIT {
        ThreadView { is_closed: true, ..t }
    } else {
        ThreadView { answers: t.answers.push((answer_key(t.answers.len() as int) as i32, text)), ..t }
    }
}

pub open spec fn after_add_answer(v: BoardView, author: Seq<char>, number: i32, text: Seq<char>) -> BoardView {
    let t = value_of(v.threads, number);
    if t.is_closed || v.bans.contains(author) {
        v
    } else {
        with_threads(v, v.threads.update(key_position(v.threads, number), (number, answered(t, text))))
    }
}

/// All answers, each followed by a line break, in storage order.
pub open spec fn answers_text(answers: Seq<(i32, Seq<char>)>) -> Seq<char>
    decreases answers.len(),
{
    if answers.len() == 0 {
        Seq::empty()
    } else {
        answers_text(answers.drop_last()) + answers.last().1 + seq!['\n']
    }
}

/// The text of thread `number`, or "thread not found".
pub open spec fn thread_text(v: BoardView, number: i32) -> Seq<char> {
    if has_key(v.threads, number) {
        value_of(v.threads, number).text
    } else {
        "thread not found"@
    }
}

/// A call that changes the board, with what the call reads from the
/// blockchain (who makes it, what deposit it carries) given as arguments.
pub enum Call {
    AddThread { author: Seq<char>, deposit: u128, text: Seq<char> },
    RemoveThread { caller: Seq<char>, key: i32 },
    BanThread { caller: Seq<char>, number: i32 },
    AddModer { caller: Seq<char>, user: Seq<char> },
    DeleteModer { caller: Seq<char>, user: Seq<char> },
    Ban { caller: Seq<char>, user: Seq<char> },
    RemoveBan { caller: Seq<char>, user: Seq<char> },
    AddAnswer { author: Seq<char>, number: i32, text: Seq<char> },
    Deposit { amount: u128 },
}

/// The board after a call; a call that the contract aborts leaves it as it
/// was.
pub open spec fn after_call(v: BoardView, c: Call) -> BoardView {
    match c {
        Call::AddThread { author, deposit, text } => if posts(v, author) && v.threads_count == i32::MAX {
            v
        } else {
            after_add_thread(v, author, deposit, text)
        },
        Call::RemoveThread { caller, key } => after_remove_thread(v, caller, key),
        Call::BanThread { caller, number } => if is_staff(v, caller) && !has_key(v.threads, number) {
            v
        } else {
            after_ban_thread(v, caller, number)
        },
        Call::AddModer { caller, user } => after_add_moder(v, caller, user),
        Call::DeleteModer { caller, user } => if caller == v.owner && !v.moderators.contains(user) {
            v
        } else {
            after_delete_moder(v, caller, user)
        },
        Call::Ban { caller, user } => after_ban(v, caller, user),
        Call::RemoveBan { caller, user } => if is_staff(v, caller) && !v.bans.contains(user) {
            v
        } else {
            after_remove_ban(v, caller, user)
        },
        Call::AddAnswer { author, number, text } => if !has_key(v.threads, number) {
            v
        } else {
            after_add_answer(v, author, number, text)
        },
        Call::Deposit { amount } => if v.balance + amount > u128::MAX {
            v
        } else {
            BoardView { balance: (v.balance + amount) as u128, ..v }
        },
    }
}

/// The board after a sequence of calls, in order.
pub open spec fn run(v: BoardView, calls: Seq<Call>) -> BoardView
    decreases calls.len(),
{
    if calls.len() == 0 {
        v
    } else {
        after_call(run(v, calls.drop_last()), calls.last())
    }
}

/// The token deposit kept for `account`, zero where none is.
pub open spec fn deposit_of(v: BoardView, account: Seq<char>) -> u128 {
    if has_account(v.deposits, account) {
        v.deposits[choose|i: int| 0 <= i < v.deposits.len() && #[trigger] v.deposits[i].0 == account].1
    } else {
        0
    }
}

} // verus!

verus! {

// ---------------------------------------------------------------------------
// The operations keep the board well formed.

/// Removing the thread at position `i` keeps the board well formed.
pub proof fn lemma_wf_swap_remove(v: BoardView, i: int)
    requires
        board_wf(v),
        0 <= i < v.threads.len(),
    ensures
        board_wf(with_threads(v, swap_removed(v.threads, i))),
{
    let s = v.threads;
    let w = swap_removed(s, i);
    assert forall|a: int, b: int| 0 <= a < w.len() && 0 <= b < w.len() && a != b
        implies #[trigger] w[a].0 != #[trigger] w[b].0 by {
        let aa = if a == i { s.len() - 1 } else { a };
        let bb = if b == i { s.len() - 1 } else { b };
        assert(w[a] == s[aa]);
        assert(w[b] == s[bb]);
    }
    assert forall|a: int| 0 <= a < w.len() implies 1 <= #[trigger] w[a].0 <= v.threads_count
        && thread_wf(w[a].1) by {
        let aa = if a == i { s.len() - 1 } else { a };
        assert(w[a] == s[aa]);
    }
}

/// Replacing the thread at position `p` by a well-formed one under the same
/// number keeps the board well formed.
pub proof fn lemma_wf_update(v: BoardView, p: int, t: ThreadView)
    requires
        board_wf(v),
        0 <= p < v.threads.len(),
        thread_wf(t),
    ensures
        board_wf(with_threads(v, v.threads.update(p, (v.threads[p].0, t)))),
{
    let s = v.threads;
    let w = s.update(p, (s[p].0, t));
    assert forall|a: int, b: int| 0 <= a < w.len() && 0 <= b < w.len() && a != b
        implies #[trigger] w[a].0 != #[trigger] w[b].0 by {
        assert(w[a].0 == s[a].0);
        assert(w[b].0 == s[b].0);
    }
    assert forall|a: int| 0 <= a < w.len() implies 1 <= #[trigger] w[a].0 <= v.threads_count
        && thread_wf(w[a].1) by {
        assert(w[a].0 == s[a].0);
        if a != p {
            assert(w[a] == s[a]);
        }
    }
}

/// Appending a well-formed thread under the next number keeps the board
/// well formed.
pub proof fn lemma_wf_push(v: BoardView, t: ThreadView)
    requires
        board_wf(v),
        v.threads_count < i32::MAX,
        v.threads.len() < THREAD_LIMIT,
        thread_wf(t),
    ensures
        board_wf(
            BoardView {
                threads_count: (v.threads_count + 1) as i32,
                threads: v.threads.push(((v.threads_count + 1) as i32, t)),
                ..v
            },
        ),
{
    let s = v.threads;
    let n = (v.threads_count + 1) as i32;
    let w = s.push((n, t));
    assert forall|a: int, b: int| 0 <= a < w.len() && 0 <= b < w.len() && a != b
        implies #[trigger] w[a].0 != #[trigger] w[b].0 by {
        if a < s.len() {
            assert(w[a] == s[a]);
        }
        if b < s.len() {
            assert(w[b] == s[b]);
        }
    }
    assert forall|a: int| 0 <= a < w.len() implies 1 <= #[trigger] w[a].0 <= n && thread_wf(w[a].1) by {
        if a < s.len() {
            assert(w[a] == s[a]);
        }
    }
}

// ---------------------------------------------------------------------------
// Positions.

/// Where a key stands in a sequence whose keys are distinct.
pub proof fn lemma_key_position<A>(s: Seq<(i32, A)>, key: i32, i: int)
    requires
        keys_distinct(s),
        0 <= i < s.len(),
        s[i].0 == key,
    ensures
        has_key(s, key),
        key_position(s, key) == i,
{
    assert(has_key(s, key));
    let j = key_position(s, key);
    assert(s[j].0 == key);
}

/// The first position of an element that a sequence holds.
pub proof fn lemma_first_position(s: Seq<Seq<char>>, x: Seq<char>, i: int)
    requires
        is_first_position(s, x, i),
    ensures
        first_position(s, x) == i,
{
    assert(exists|k: int| is_first_position(s, x, k));
    let j = first_position(s, x);
    assert(is_first_position(s, x, j));
    if j < i {
        assert(s[j] != x);
    }
    if i < j {
        assert(s[i] != x);
    }
}

/// The position of the smallest key in a sequence whose keys are distinct.
pub proof fn lemma_oldest_position<A>(s: Seq<(i32, A)>, i: int)
    requires
        keys_distinct(s),
        is_oldest(s, i),
    ensures
        oldest_position(s) == i,
{
    let j = oldest_position(s);
    assert(is_oldest(s, j));
    assert(s[i].0 <= s[j].0 && s[j].0 <= s[i].0);
}

/// A sequence that is not empty has a smallest key.
pub proof fn lemma_oldest_exists<A>(s: Seq<(i32, A)>)
    requires
        s.len() > 0,
    ensures
        is_oldest(s, oldest_position(s)),
    decreases s.len(),
{
    let last = s.len() - 1;
    if s.len() == 1 {
        assert(is_oldest(s, 0));
    } else {
        let d = s.drop_last();
        lemma_oldest_exists(d);
        let k = oldest_position(d);
        if s[k].0 <= s[last].0 {
            assert forall|j: int| 0 <= j < s.len() implies s[k].0 <= #[trigger] s[j].0 by {
                if j < last {
                    assert(s[j] == d[j]);
                }
            }
            assert(is_oldest(s, k));
        } else {
            assert forall|j: int| 0 <= j < s.len() implies s[last].0 <= #[trigger] s[j].0 by {
                if j < last {
                    assert(s[j] == d[j]);
                }
            }
            assert(is_oldest(s, last));
        }
    }
}

} // verus!
