//! What holds of the board across its operations.

use vstd::prelude::*;

use crate::board::{reward_for, FtTransfer};
use crate::model::{
    after_add_answer, after_add_moder, answers_text, after_add_thread, after_ban, after_ban_thread, after_call,
    after_delete_moder, after_remove_ban, after_remove_thread, answer_key, answer_reply, answered,
    board_wf, deposit_of, first_position, has_account, has_key, is_first_position, is_fresh,
    is_staff, key_position, keys_distinct, lemma_first_position, lemma_key_position,
    lemma_oldest_exists, lemma_wf_push, lemma_wf_swap_remove, lemma_wf_update, new_thread,
    oldest_position, owner_reply, posts, run, swap_removed, thread_text, thread_wf, trimmed, value_of,
    with_bans, without_key, BoardView, Call, ThreadView, ANSWER_LIMIT, REWARD_THREAD, THREAD_LIMIT,
};

verus! {

/// A sequence that holds `x` has a first position of it.
pub proof fn lemma_first_position_exists(s: Seq<Seq<char>>, x: Seq<char>)
    requires
        s.contains(x),
    ensures
        is_first_position(s, x, first_position(s, x)),
    decreases s.len(),
{
    let k = choose|k: int| 0 <= k < s.len() && s[k] == x;
    let d = s.drop_last();
    if d.contains(x) {
        lemma_first_position_exists(d, x);
        let i = first_position(d, x);
        assert forall|j: int| 0 <= j < i implies s[j] != x by {
            assert(d[j] == s[j]);
        }
        assert(d[i] == s[i]);
        assert(is_first_position(s, x, i));
        lemma_first_position(s, x, i);
    } else {
        let i = s.len() - 1;
        assert forall|j: int| 0 <= j < i implies s[j] != x by {
            assert(d[j] == s[j]);
        }
        if k != i {
            assert(d[k] == s[k]);
        }
        assert(is_first_position(s, x, i));
        lemma_first_position(s, x, i);
    }
}

/// Once staff have removed a thread, the board holds no thread under its
/// number.
pub proof fn lemma_removed_key_absent<A>(s: Seq<(i32, A)>, key: i32)
    requires
        keys_distinct(s),
    ensures
        !has_key(without_key(s, key), key),
{
    if has_key(s, key) {
        let p = key_position(s, key);
        let w = swap_removed(s, p);
        assert forall|j: int| 0 <= j < w.len() implies #[trigger] w[j].0 != key by {
            if j == p {
                assert(w[j] == s[s.len() - 1]);
            } else {
                assert(w[j] == s[j]);
            }
        }
    }
}

/// Only staff remove or close threads, or ban and lift bans: for anyone else
/// these calls leave the board as it was.
pub proof fn law_staff_only_moderate(v: BoardView, caller: Seq<char>, number: i32, user: Seq<char>)
    requires
        !is_staff(v, caller),
    ensures
        after_remove_thread(v, caller, number) == v,
        after_ban_thread(v, caller, number) == v,
        after_ban(v, caller, user) == v,
        after_remove_ban(v, caller, user) == v,
{
}

/// Only the owner appoints or removes moderators: for anyone else these
/// calls leave the board as it was.
pub proof fn law_owner_only_appoints(v: BoardView, caller: Seq<char>, user: Seq<char>)
    requires
        caller != v.owner,
    ensures
        after_add_moder(v, caller, user) == v,
        after_delete_moder(v, caller, user) == v,
{
}

/// Removing a thread twice is removing it once, and afterwards the board
/// holds no thread under that number where staff removed it.
pub proof fn law_remove_thread_idempotent(v: BoardView, caller: Seq<char>, key: i32)
    requires
        board_wf(v),
    ensures
        after_remove_thread(after_remove_thread(v, caller, key), caller, key) == after_remove_thread(
            v,
            caller,
            key,
        ),
        is_staff(v, caller) ==> !has_key(after_remove_thread(v, caller, key).threads, key),
{
    lemma_removed_key_absent(v.threads, key);
}

/// Banning an account and lifting the ban, both by staff, gives back the
/// board as it was.
pub proof fn law_ban_round_trip(v: BoardView, caller: Seq<char>, user: Seq<char>)
    requires
        is_staff(v, caller),
    ensures
        after_remove_ban(after_ban(v, caller, user), caller, user) == v,
{
    let w = after_ban(v, caller, user);
    let s = v.bans;
    let t = s.push(user);
    assert(t[s.len() as int] == user);
    assert(t.contains(user));
    lemma_first_position_exists(t, user);
    let p = first_position(t, user);
    assert(t.last() == user);
    assert(t[p] == user);
    assert(swap_removed(t, p) =~= s) by {
        assert forall|j: int| 0 <= j < s.len() implies swap_removed(t, p)[j] == s[j] by {
            assert(t[j] == s[j]);
        }
    }
    assert(after_remove_ban(w, caller, user) == with_bans(w, swap_removed(t, p)));
}

/// Appointing a moderator and removing it, both by the owner, gives back the
/// board as it was.
pub proof fn law_moder_round_trip(v: BoardView, user: Seq<char>)
    ensures
        after_delete_moder(after_add_moder(v, v.owner, user), v.owner, user) == v,
{
    let s = v.moderators;
    let t = s.push(user);
    assert(t[s.len() as int] == user);
    assert(t.contains(user));
    lemma_first_position_exists(t, user);
    let p = first_position(t, user);
    assert(t.last() == user);
    assert(t[p] == user);
    assert(swap_removed(t, p) =~= s) by {
        assert forall|j: int| 0 <= j < s.len() implies swap_removed(t, p)[j] == s[j] by {
            assert(t[j] == s[j]);
        }
    }
}

/// A closed thread takes no answer: the board stays as it was and the reply
/// is "thread is closed".
pub proof fn law_closed_thread_refuses(v: BoardView, author: Seq<char>, number: i32, text: Seq<char>)
    requires
        has_key(v.threads, number),
        value_of(v.threads, number).is_closed,
    ensures
        after_add_answer(v, author, number, text) == v,
        answer_reply(v, author, number) == "thread is closed"@,
{
}

/// The number a posted thread gets was never used by a thread on the board.
pub proof fn law_new_number_unused(v: BoardView)
    requires
        board_wf(v),
        v.threads_count < i32::MAX,
    ensures
        !has_key(v.threads, (v.threads_count + 1) as i32),
{
    if has_key(v.threads, (v.threads_count + 1) as i32) {
        let i = choose|i: int| 0 <= i < v.threads.len() && #[trigger] v.threads[i].0 == (v.threads_count + 1) as i32;
        assert(v.threads[i].0 <= v.threads_count);
    }
}

/// The reward is paid once: once a post has been rewarded, no later post is.
pub proof fn law_reward_once(v: BoardView, author: Seq<char>, deposit: u128, text: Seq<char>, later: Seq<char>)
    requires
        board_wf(v),
        posts(v, author),
        v.threads_count + 1 == REWARD_THREAD,
    ensures
        forall|w: BoardView| #![trigger reward_for(w, later, None::<FtTransfer>)]
            w.threads_count >= after_add_thread(v, author, deposit, text).threads_count
            ==> reward_for(w, later, None::<FtTransfer>),
{
}

/// Making room keeps the board well formed and leaves room for one thread.
pub proof fn lemma_wf_trim(v: BoardView)
    requires
        board_wf(v),
    ensures
        board_wf(trimmed(v)),
        trimmed(v).threads.len() < THREAD_LIMIT,
        trimmed(v).threads_count == v.threads_count,
        trimmed(v).bans == v.bans,
{
    if v.threads.len() >= THREAD_LIMIT {
        lemma_oldest_exists(v.threads);
        lemma_wf_swap_remove(v, oldest_position(v.threads));
    }
}

/// A thread posted by an author who is not banned gets the next number, and
/// reading that number gives back its text and its author; it is premium
/// exactly when a deposit came with it, and it starts open and without
/// answers, whatever the deposit.
pub proof fn law_posted_thread_readable(v: BoardView, author: Seq<char>, deposit: u128, text: Seq<char>)
    requires
        board_wf(v),
        !v.bans.contains(author),
        v.threads_count < i32::MAX,
    ensures
        !value_of(after_add_thread(v, author, deposit, text).threads, (v.threads_count + 1) as i32).is_closed,
        value_of(after_add_thread(v, author, deposit, text).threads, (v.threads_count + 1) as i32).answers.len()
            == 0,
        after_add_thread(v, author, deposit, text).threads_count == v.threads_count + 1,
        has_key(after_add_thread(v, author, deposit, text).threads, (v.threads_count + 1) as i32),
        thread_text(after_add_thread(v, author, deposit, text), (v.threads_count + 1) as i32) == text,
        value_of(after_add_thread(v, author, deposit, text).threads, (v.threads_count + 1) as i32).author
            == author,
        value_of(after_add_thread(v, author, deposit, text).threads, (v.threads_count + 1) as i32).premium
            == (deposit > 0),
{
    lemma_wf_trim(v);
    let t = trimmed(v);
    let w = after_add_thread(v, author, deposit, text);
    let n = (v.threads_count + 1) as i32;
    lemma_wf_push(t, new_thread(author, deposit, text));
    let i = t.threads.len() as int;
    assert(w.threads[i].0 == n);
    lemma_key_position(w.threads, n, i);
}

/// The board never holds more than `THREAD_LIMIT` threads: a post to a full
/// board removes the thread with the smallest number, keeps every other,
/// and stores the new one.
pub proof fn law_thread_limit(v: BoardView, author: Seq<char>, deposit: u128, text: Seq<char>)
    requires
        board_wf(v),
        posts(v, author),
        v.threads_count < i32::MAX,
        v.threads.len() == THREAD_LIMIT,
    ensures
        after_add_thread(v, author, deposit, text).threads.len() == THREAD_LIMIT,
        forall|j: int| 0 <= j < v.threads.len() ==> v.threads[oldest_position(v.threads)].0 <= #[trigger] v.threads[j].0,
        !has_key(after_add_thread(v, author, deposit, text).threads, v.threads[oldest_position(v.threads)].0),
        forall|j: int| 0 <= j < v.threads.len() && j != oldest_position(v.threads)
            ==> has_key(after_add_thread(v, author, deposit, text).threads, #[trigger] v.threads[j].0),
        has_key(after_add_thread(v, author, deposit, text).threads, (v.threads_count + 1) as i32),
{
    lemma_oldest_exists(v.threads);
    lemma_wf_trim(v);
    law_posted_thread_readable(v, author, deposit, text);
    let p = oldest_position(v.threads);
    let s = v.threads;
    let t = trimmed(v).threads;
    let w = after_add_thread(v, author, deposit, text).threads;
    let old_key = s[p].0;
    assert forall|j: int| 0 <= j < w.len() implies #[trigger] w[j].0 != old_key by {
        if j < t.len() {
            assert(w[j] == t[j]);
            if j == p {
                assert(t[j] == s[s.len() - 1]);
            } else {
                assert(t[j] == s[j]);
            }
        } else {
            assert(w[j].0 == (v.threads_count + 1) as i32);
            assert(1 <= s[p].0 <= v.threads_count);
        }
    }
    assert forall|j: int| 0 <= j < s.len() && j != p implies has_key(w, #[trigger] s[j].0) by {
        if j == s.len() - 1 {
            assert(w[p] == t[p]);
            assert(t[p] == s[j]);
        } else {
            assert(w[j] == t[j]);
            assert(t[j] == s[j]);
        }
    }
}

/// An account banned by staff posts no thread and no answer: the board
/// stays, and an answer to an open thread is refused with "banned".
pub proof fn law_ban_silences(v: BoardView, caller: Seq<char>, user: Seq<char>, deposit: u128, text: Seq<char>, number: i32)
    requires
        is_staff(v, caller),
    ensures
        after_ban(v, caller, user).bans.contains(user),
        after_add_thread(after_ban(v, caller, user), user, deposit, text) == after_ban(v, caller, user),
        has_key(v.threads, number) && !value_of(v.threads, number).is_closed ==> {
            &&& after_add_answer(after_ban(v, caller, user), user, number, text) == after_ban(v, caller, user)
            &&& answer_reply(after_ban(v, caller, user), user, number) == "banned"@
        },
{
    let w = after_ban(v, caller, user);
    assert(w.bans[v.bans.len() as int] == user);
}

/// An answer keeps the board well formed, and keeps the thread it answers.
pub proof fn lemma_wf_answer(v: BoardView, author: Seq<char>, number: i32, text: Seq<char>)
    requires
        board_wf(v),
        has_key(v.threads, number),
    ensures
        board_wf(after_add_answer(v, author, number, text)),
        has_key(after_add_answer(v, author, number, text).threads, number),
        key_position(after_add_answer(v, author, number, text).threads, number) == key_position(v.threads, number),
{
    let p = key_position(v.threads, number);
    let t = value_of(v.threads, number);
    assert(thread_wf(t));
    let w = after_add_answer(v, author, number, text);
    if !(t.is_closed || v.bans.contains(author)) {
        let t2 = answered(t, text);
        assert forall|k: int| 0 <= k < t2.answers.len() implies #[trigger] t2.answers[k].0 == answer_key(k) by {
            if k < t.answers.len() {
                assert(t2.answers[k] == t.answers[k]);
            }
        }
        lemma_wf_update(v, p, t2);
        assert(w.threads[p].0 == number);
    }
    lemma_key_position(w.threads, number, p);
}

/// A thread never holds more than `ANSWER_LIMIT` answers: an answer from an
/// author who is not banned that would pass the limit closes the thread
/// instead, and the thread then refuses every answer. An answer closes a
/// thread in that case only.
pub proof fn law_answer_limit(v: BoardView, author: Seq<char>, number: i32, text: Seq<char>)
    requires
        board_wf(v),
        has_key(v.threads, number),
    ensures
        value_of(after_add_answer(v, author, number, text).threads, number).answers.len() <= ANSWER_LIMIT,
        value_of(after_add_answer(v, author, number, text).threads, number).is_closed == (value_of(
            v.threads,
            number,
        ).is_closed || value_of(v.threads, number).answers.len() == ANSWER_LIMIT && !v.bans.contains(author)),
{
    lemma_wf_answer(v, author, number, text);
    let w = after_add_answer(v, author, number, text);
    assert(thread_wf(w.threads[key_position(w.threads, number)].1));
}

/// An answer to one thread leaves every other thread as it was, and leaves
/// the owner, the count, the moderators, the bans, the balance, the
/// deposits, and every thread's number, author, text and premium flag.
pub proof fn law_answer_local(v: BoardView, author: Seq<char>, number: i32, other: i32, text: Seq<char>)
    requires
        board_wf(v),
        has_key(v.threads, number),
        has_key(v.threads, other),
        other != number,
    ensures
        has_key(after_add_answer(v, author, number, text).threads, other),
        value_of(after_add_answer(v, author, number, text).threads, other) == value_of(v.threads, other),
        after_add_answer(v, author, number, text).owner == v.owner,
        after_add_answer(v, author, number, text).threads_count == v.threads_count,
        after_add_answer(v, author, number, text).moderators == v.moderators,
        after_add_answer(v, author, number, text).bans == v.bans,
        after_add_answer(v, author, number, text).balance == v.balance,
        after_add_answer(v, author, number, text).deposits == v.deposits,
        after_add_answer(v, author, number, text).threads.len() == v.threads.len(),
        forall|i: int| 0 <= i < v.threads.len() ==> {
            let e = #[trigger] after_add_answer(v, author, number, text).threads[i];
            &&& e.0 == v.threads[i].0
            &&& e.1.author == v.threads[i].1.author
            &&& e.1.text == v.threads[i].1.text
            &&& e.1.premium == v.threads[i].1.premium
        },
{
    lemma_wf_answer(v, author, number, text);
    let w = after_add_answer(v, author, number, text);
    let q = key_position(v.threads, other);
    let p = key_position(v.threads, number);
    assert(q != p);
    assert(w.threads[q] == v.threads[q]);
    lemma_key_position(w.threads, other, q);
}

/// Every call keeps the board well formed, never changes its owner, its
/// token contract or its deposits, never lowers the thread count, and
/// changes the balance only by taking a deposit, which adds its amount.
pub proof fn law_call_keeps(v: BoardView, c: Call)
    requires
        board_wf(v),
    ensures
        board_wf(after_call(v, c)),
        after_call(v, c).owner == v.owner,
        after_call(v, c).ft_id == v.ft_id,
        after_call(v, c).deposits == v.deposits,
        after_call(v, c).threads_count >= v.threads_count,
        after_call(v, c).balance >= v.balance,
        after_call(v, c).balance != v.balance ==> c is Deposit && after_call(v, c).balance == v.balance
            + c->amount,
{
    match c {
        Call::AddThread { author, deposit, text } => {
            if posts(v, author) && v.threads_count < i32::MAX {
                lemma_wf_trim(v);
                lemma_wf_push(trimmed(v), new_thread(author, deposit, text));
            }
        },
        Call::RemoveThread { caller, key } => {
            if is_staff(v, caller) && has_key(v.threads, key) {
                lemma_wf_swap_remove(v, key_position(v.threads, key));
            }
        },
        Call::BanThread { caller, number } => {
            if is_staff(v, caller) && has_key(v.threads, number) {
                let p = key_position(v.threads, number);
                let t = value_of(v.threads, number);
                assert(thread_wf(t));
                lemma_wf_update(v, p, ThreadView { is_closed: true, ..t });
            }
        },
        Call::AddAnswer { author, number, text } => {
            if has_key(v.threads, number) {
                lemma_wf_answer(v, author, number, text);
            }
        },
        _ => {},
    }
}

/// What every call keeps holds after any sequence of calls.
pub proof fn law_run_keeps(v: BoardView, calls: Seq<Call>)
    requires
        board_wf(v),
    ensures
        board_wf(run(v, calls)),
        run(v, calls).owner == v.owner,
        run(v, calls).ft_id == v.ft_id,
        run(v, calls).deposits == v.deposits,
        run(v, calls).threads_count >= v.threads_count,
        run(v, calls).balance >= v.balance,
    decreases calls.len(),
{
    if calls.len() > 0 {
        law_run_keeps(v, calls.drop_last());
        law_call_keeps(run(v, calls.drop_last()), calls.last());
    }
}

/// No call ever credits a deposit: on a board that began fresh, every
/// account reads a zero deposit.
pub proof fn law_no_deposits(v: BoardView, calls: Seq<Call>, owner: Seq<char>, ft_id: Seq<char>, account: Seq<char>)
    requires
        is_fresh(v, owner, ft_id),
    ensures
        deposit_of(run(v, calls), account) == 0,
{
    assert(v.threads =~= Seq::<(i32, ThreadView)>::empty());
    law_run_keeps(v, calls);
    assert(!has_account(run(v, calls).deposits, account));
}

/// An answer taken by an open thread from an author who is not banned, on a
/// thread with fewer than 500 answers, is stored whole after the earlier
/// ones: the thread holds one more answer, the last one is the posted text
/// under number 0 for a first answer and one past its position otherwise,
/// the thread stays open with its text, author and premium flag, and the
/// reply is "first post" for the first answer and "succes" after that.
pub proof fn law_answer_stored(v: BoardView, author: Seq<char>, number: i32, text: Seq<char>)
    requires
        board_wf(v),
        has_key(v.threads, number),
        !value_of(v.threads, number).is_closed,
        !v.bans.contains(author),
        value_of(v.threads, number).answers.len() < 500,
    ensures
        has_key(after_add_answer(v, author, number, text).threads, number),
        ({
            let t = value_of(v.threads, number);
            let t2 = value_of(after_add_answer(v, author, number, text).threads, number);
            &&& t2.answers.len() == t.answers.len() + 1
            &&& t2.answers.last().1 == text
            &&& t2.answers.last().0 == (if t.answers.len() == 0 { 0 } else { t.answers.len() + 1 })
            &&& t2.answers.drop_last() == t.answers
            &&& !t2.is_closed
            &&& t2.text == t.text
            &&& t2.author == t.author
            &&& t2.premium == t.premium
        }),
        answer_reply(v, author, number) == (if value_of(v.threads, number).answers.len() == 0 {
            "first post"@
        } else {
            "succes"@
        }),
{
    lemma_wf_answer(v, author, number, text);
    let p = key_position(v.threads, number);
    let t = value_of(v.threads, number);
    let w = after_add_answer(v, author, number, text);
    assert(w.threads[p] == (number, answered(t, text)));
    assert(answered(t, text).answers.drop_last() =~= t.answers);
}

/// An answer refused by a closed thread, or from a banned account, leaves
/// the board as it was; a full open thread is closed by an answer from an
/// account that is not banned, and keeps its answers.
pub proof fn law_answer_refused(v: BoardView, author: Seq<char>, number: i32, text: Seq<char>)
    requires
        board_wf(v),
        has_key(v.threads, number),
    ensures
        value_of(v.threads, number).is_closed ==> after_add_answer(v, author, number, text) == v
            && answer_reply(v, author, number) == "thread is closed"@,
        !value_of(v.threads, number).is_closed && v.bans.contains(author) ==> after_add_answer(
            v,
            author,
            number,
            text,
        ) == v && answer_reply(v, author, number) == "banned"@,
        !value_of(v.threads, number).is_closed && !v.bans.contains(author) && value_of(v.threads, number).answers.len()
            == 500 ==> {
            &&& value_of(after_add_answer(v, author, number, text).threads, number).is_closed
            &&& value_of(after_add_answer(v, author, number, text).threads, number).answers == value_of(
                v.threads,
                number,
            ).answers
            &&& answer_reply(v, author, number) == "thread is closed"@
        },
{
    lemma_wf_answer(v, author, number, text);
    let p = key_position(v.threads, number);
    let t = value_of(v.threads, number);
    let w = after_add_answer(v, author, number, text);
    if !t.is_closed && !v.bans.contains(author) {
        assert(w.threads[p] == (number, answered(t, text)));
    }
}

/// The answers text of no answers is empty.
pub proof fn law_answers_text_empty()
    ensures
        answers_text(Seq::<(i32, Seq<char>)>::empty()) == Seq::<char>::empty(),
{
}

/// Appending an answer appends its whole text and a line break to the
/// answers text.
pub proof fn law_answers_text_append(answers: Seq<(i32, Seq<char>)>, key: i32, text: Seq<char>)
    ensures
        answers_text(answers.push((key, text))) == answers_text(answers) + text + seq!['\n'],
{
    assert(answers.push((key, text)).drop_last() =~= answers);
}

/// The answers text of two runs of answers is the text of the first
/// followed by the text of the second.
pub proof fn law_answers_text_concat(a: Seq<(i32, Seq<char>)>, b: Seq<(i32, Seq<char>)>)
    ensures
        answers_text(a + b) == answers_text(a) + answers_text(b),
    decreases b.len(),
{
    if b.len() == 0 {
        assert(a + b =~= a);
        assert(answers_text(a) + answers_text(b) =~= answers_text(a));
    } else {
        let c = b.drop_last();
        law_answers_text_concat(a, c);
        assert((a + b).drop_last() =~= a + c);
        assert((a + b).last() == b.last());
        assert(answers_text(a) + answers_text(b) =~= answers_text(a) + answers_text(c) + b.last().1 + seq!['\n']);
    }
}

/// The answers text has one line break per answer on top of the answers'
/// own characters.
pub proof fn law_answers_text_len(answers: Seq<(i32, Seq<char>)>)
    ensures
        answers_text(answers).len() == total_len(answers) + answers.len(),
    decreases answers.len(),
{
    if answers.len() > 0 {
        law_answers_text_len(answers.drop_last());
    }
}

/// The number of characters in all answers.
pub open spec fn total_len(answers: Seq<(i32, Seq<char>)>) -> int
    decreases answers.len(),
{
    if answers.len() == 0 {
        0
    } else {
        total_len(answers.drop_last()) + answers.last().1.len()
    }
}

/// After an answer is taken, reading the thread's answers gives what it
/// gave before, followed by the whole posted text and a line break.
pub proof fn law_answer_appends_text(v: BoardView, author: Seq<char>, number: i32, text: Seq<char>)
    requires
        board_wf(v),
        has_key(v.threads, number),
        !value_of(v.threads, number).is_closed,
        !v.bans.contains(author),
        value_of(v.threads, number).answers.len() < 500,
    ensures
        answers_text(value_of(after_add_answer(v, author, number, text).threads, number).answers)
            == answers_text(value_of(v.threads, number).answers) + text + seq!['\n'],
{
    law_answer_stored(v, author, number, text);
    let t2 = value_of(after_add_answer(v, author, number, text).threads, number);
    assert(t2.answers =~= value_of(v.threads, number).answers.push(t2.answers.last()));
    law_answers_text_append(value_of(v.threads, number).answers, t2.answers.last().0, text);
}

/// A moderator or the owner who closes an existing thread leaves it closed,
/// with its text, author, premium flag and answers, and leaves every other
/// thread as it was.
pub proof fn law_staff_closes_thread(v: BoardView, caller: Seq<char>, number: i32, other: i32)
    requires
        board_wf(v),
        v.moderators.contains(caller) || caller == v.owner,
        has_key(v.threads, number),
    ensures
        has_key(after_ban_thread(v, caller, number).threads, number),
        value_of(after_ban_thread(v, caller, number).threads, number).is_closed,
        value_of(after_ban_thread(v, caller, number).threads, number).text == value_of(v.threads, number).text,
        value_of(after_ban_thread(v, caller, number).threads, number).author == value_of(v.threads, number).author,
        value_of(after_ban_thread(v, caller, number).threads, number).premium == value_of(v.threads, number).premium,
        value_of(after_ban_thread(v, caller, number).threads, number).answers == value_of(v.threads, number).answers,
        after_ban_thread(v, caller, number).threads.len() == v.threads.len(),
        has_key(v.threads, other) && other != number ==> has_key(after_ban_thread(v, caller, number).threads, other)
            && value_of(after_ban_thread(v, caller, number).threads, other) == value_of(v.threads, other),
{
    let p = key_position(v.threads, number);
    let t = value_of(v.threads, number);
    assert(thread_wf(t));
    lemma_wf_update(v, p, ThreadView { is_closed: true, ..t });
    let w = after_ban_thread(v, caller, number);
    assert(w.threads[p].0 == number);
    lemma_key_position(w.threads, number, p);
    if has_key(v.threads, other) && other != number {
        let q = key_position(v.threads, other);
        assert(q != p);
        assert(w.threads[q] == v.threads[q]);
        lemma_key_position(w.threads, other, q);
    }
}

/// Reading a thread the board holds gives its stored text, closed or not;
/// reading a number it does not hold gives "thread not found".
pub proof fn law_thread_text_reads_stored(v: BoardView, number: i32)
    ensures
        has_key(v.threads, number) ==> thread_text(v, number) == value_of(v.threads, number).text,
        !has_key(v.threads, number) ==> thread_text(v, number) == "thread not found"@,
{
}

/// Closing a thread keeps its text readable, and a closed thread still
/// reads as its text.
pub proof fn law_closed_thread_readable(v: BoardView, caller: Seq<char>, number: i32)
    requires
        board_wf(v),
        has_key(v.threads, number),
    ensures
        thread_text(after_ban_thread(v, caller, number), number) == thread_text(v, number),
        thread_text(v, number) == value_of(v.threads, number).text,
{
    if is_staff(v, caller) {
        law_staff_closes_thread(v, caller, number, number);
    }
}

/// Staff removing an existing thread takes away exactly that thread: its
/// number is gone, every other thread stays, and one fewer is held.
pub proof fn law_remove_thread_exact(v: BoardView, caller: Seq<char>, key: i32, other: i32)
    requires
        board_wf(v),
        v.moderators.contains(caller) || caller == v.owner,
        has_key(v.threads, key),
    ensures
        !has_key(after_remove_thread(v, caller, key).threads, key),
        after_remove_thread(v, caller, key).threads.len() == v.threads.len() - 1,
        has_key(v.threads, other) && other != key ==> has_key(after_remove_thread(v, caller, key).threads, other)
            && value_of(after_remove_thread(v, caller, key).threads, other) == value_of(v.threads, other),
{
    lemma_removed_key_absent(v.threads, key);
    let p = key_position(v.threads, key);
    lemma_wf_swap_remove(v, p);
    let s = v.threads;
    let w = after_remove_thread(v, caller, key).threads;
    if has_key(v.threads, other) && other != key {
        let q = key_position(s, other);
        assert(q != p);
        if q == s.len() - 1 {
            assert(w[p] == s[q]);
            lemma_key_position(w, other, p);
        } else {
            assert(w[q] == s[q]);
            lemma_key_position(w, other, q);
        }
    }
}

/// The owner appointing an account makes it a moderator and keeps every
/// moderator there was; anyone else changes nothing.
pub proof fn law_add_moder_effect(v: BoardView, caller: Seq<char>, user: Seq<char>, m: Seq<char>)
    ensures
        caller == v.owner ==> after_add_moder(v, caller, user).moderators.contains(user)
            && after_add_moder(v, caller, user).moderators.len() == v.moderators.len() + 1
            && (v.moderators.contains(m) ==> after_add_moder(v, caller, user).moderators.contains(m)),
        caller != v.owner ==> after_add_moder(v, caller, user) == v,
{
    if caller == v.owner {
        let w = after_add_moder(v, caller, user).moderators;
        assert(w[v.moderators.len() as int] == user);
        if v.moderators.contains(m) {
            let i = choose|i: int| 0 <= i < v.moderators.len() && v.moderators[i] == m;
            assert(w[i] == m);
        }
    }
}

/// Staff banning an account bans it and keeps every ban there was; anyone
/// else changes nothing.
pub proof fn law_ban_effect(v: BoardView, caller: Seq<char>, user: Seq<char>, b: Seq<char>)
    ensures
        (v.moderators.contains(caller) || caller == v.owner) ==> after_ban(v, caller, user).bans.contains(user)
            && after_ban(v, caller, user).bans.len() == v.bans.len() + 1
            && (v.bans.contains(b) ==> after_ban(v, caller, user).bans.contains(b)),
        !(v.moderators.contains(caller) || caller == v.owner) ==> after_ban(v, caller, user) == v,
{
    if v.moderators.contains(caller) || caller == v.owner {
        let w = after_ban(v, caller, user).bans;
        assert(w[v.bans.len() as int] == user);
        if v.bans.contains(b) {
            let i = choose|i: int| 0 <= i < v.bans.len() && v.bans[i] == b;
            assert(w[i] == b);
        }
    }
}

/// Removing one occurrence of an account from a list shortens it by one,
/// keeps every other account, and adds none.
pub proof fn lemma_remove_first_effect(s: Seq<Seq<char>>, x: Seq<char>, m: Seq<char>)
    requires
        s.contains(x),
    ensures
        swap_removed(s, first_position(s, x)).len() == s.len() - 1,
        m != x && s.contains(m) ==> swap_removed(s, first_position(s, x)).contains(m),
        swap_removed(s, first_position(s, x)).contains(m) ==> s.contains(m),
{
    lemma_first_position_exists(s, x);
    let p = first_position(s, x);
    let w = swap_removed(s, p);
    if m != x && s.contains(m) {
        let i = choose|i: int| 0 <= i < s.len() && s[i] == m;
        assert(i != p);
        if i == s.len() - 1 {
            assert(w[p] == m);
        } else {
            assert(w[i] == m);
        }
    }
    if w.contains(m) {
        let i = choose|i: int| 0 <= i < w.len() && w[i] == m;
        if i == p {
            assert(s[s.len() - 1] == m);
        } else {
            assert(s[i] == m);
        }
    }
}

/// The owner removing a moderator takes away one occurrence of it: one
/// fewer moderator, every other one kept, none added.
pub proof fn law_delete_moder_effect(v: BoardView, user: Seq<char>, m: Seq<char>)
    requires
        v.moderators.contains(user),
    ensures
        after_delete_moder(v, v.owner, user).moderators.len() == v.moderators.len() - 1,
        m != user && v.moderators.contains(m) ==> after_delete_moder(v, v.owner, user).moderators.contains(m),
        after_delete_moder(v, v.owner, user).moderators.contains(m) ==> v.moderators.contains(m),
{
    lemma_remove_first_effect(v.moderators, user, m);
}

/// Staff lifting a ban takes away one occurrence of it: one fewer ban, every
/// other one kept, none added.
pub proof fn law_remove_ban_effect(v: BoardView, caller: Seq<char>, user: Seq<char>, b: Seq<char>)
    requires
        v.moderators.contains(caller) || caller == v.owner,
        v.bans.contains(user),
    ensures
        after_remove_ban(v, caller, user).bans.len() == v.bans.len() - 1,
        b != user && v.bans.contains(b) ==> after_remove_ban(v, caller, user).bans.contains(b),
        after_remove_ban(v, caller, user).bans.contains(b) ==> v.bans.contains(b),
{
    lemma_remove_first_effect(v.bans, user, b);
}

/// The reward for a post is a transfer of exactly one unit of the board's
/// token to the author, with one yoctoNEAR attached, owed exactly for the
/// third thread posted by an author who is not banned.
pub proof fn law_reward_terms(v: BoardView, author: Seq<char>, r: Option<FtTransfer>)
    requires
        reward_for(v, author, r),
    ensures
        r.is_some() <==> (!v.bans.contains(author) && v.threads_count == 2),
        r.is_some() ==> r.unwrap().amount == 1 && r.unwrap().deposit == 1 && r.unwrap().receiver@ == author
            && r.unwrap().token@ == v.ft_id,
{
}

/// Appointing or removing a moderator tells the owner "success" and anyone
/// else "denied".
pub proof fn law_owner_reply(v: BoardView, caller: Seq<char>)
    ensures
        caller == v.owner ==> owner_reply(v, caller) == "success"@,
        caller != v.owner ==> owner_reply(v, caller) == "denied"@,
{
}

} // verus!
