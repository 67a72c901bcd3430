//! The durable store behind the relay: user records and the
//! store-and-forward message queue. Usernames are unique, message
//! identifiers are never reused, and the queue hands messages out oldest
//! first, one at a time; a message leaves the queue only through an
//! explicit delete.

use vstd::prelude::*;

verus! {

/// Why a repository operation failed.
#[derive(Clone, Copy, PartialEq, Eq, Structural, Debug)]
pub enum RepoError {
    /// A uniqueness conflict: the username is already taken.
    Conflict,
    /// No record matches the query.
    NotFound,
    /// The store cannot accept another record.
    Storage,
}

/// A stored user record.
pub struct User {
    pub id: u64,
    pub username: String,
    pub password: String,
}

/// Mathematical view of a stored user.
pub struct UserV {
    pub id: u64,
    pub username: Seq<char>,
    pub password: Seq<char>,
}

impl View for User {
    type V = UserV;

    open spec fn view(&self) -> UserV {
        UserV { id: self.id, username: self.username@, password: self.password@ }
    }
}

/// A queued, not yet delivered message.
pub struct QueuedMessage {
    pub id: u64,
    pub sender: u64,
    pub recipient: u64,
    pub message: String,
    pub timestamp: String,
}

/// Mathematical view of a queued message.
pub struct MsgV {
    pub id: u64,
    pub sender: u64,
    pub recipient: u64,
    pub message: Seq<char>,
    pub timestamp: Seq<char>,
}

impl View for QueuedMessage {
    type V = MsgV;

    open spec fn view(&self) -> MsgV {
        MsgV {
            id: self.id,
            sender: self.sender,
            recipient: self.recipient,
            message: self.message@,
            timestamp: self.timestamp@,
        }
    }
}

/// One message ready for delivery, as handed to the outbound worker: the
/// queue entry's identifier, body and timestamp, with the sender resolved
/// to a username.
pub struct DBMessageQuery {
    pub id: u64,
    pub sender: String,
    pub message: String,
    pub timestamp: String,
}

/// The store: user records and the pending-message queue, with the next
/// fresh identifier for each.
pub struct Repository {
    users: Vec<User>,
    queue: Vec<QueuedMessage>,
    next_user_id: u64,
    next_msg_id: u64,
}

/// Mathematical view of the store.
pub struct RepoV {
    pub users: Seq<UserV>,
    pub queue: Seq<MsgV>,
    pub next_user_id: u64,
    pub next_msg_id: u64,
}

impl View for Repository {
    type V = RepoV;

    closed spec fn view(&self) -> RepoV {
        RepoV {
            users: Seq::new(self.users@.len(), |i: int| self.users@[i]@),
            queue: Seq::new(self.queue@.len(), |i: int| self.queue@[i]@),
            next_user_id: self.next_user_id,
            next_msg_id: self.next_msg_id,
        }
    }
}

/// Well-formedness of the store: usernames and user identifiers are
/// unique and below the next fresh user identifier; queued messages carry
/// strictly increasing identifiers, all below the next fresh message
/// identifier.
pub open spec fn wf(r: RepoV) -> bool {
    &&& (forall|i: int, j: int|
        0 <= i < j < r.users.len() ==> #[trigger] r.users[i].username != #[trigger] r.users[j].username)
    &&& (forall|i: int, j: int|
        0 <= i < j < r.users.len() ==> #[trigger] r.users[i].id != #[trigger] r.users[j].id)
    &&& (forall|i: int| 0 <= i < r.users.len() ==> #[trigger] r.users[i].id < r.next_user_id)
    &&& (forall|i: int, j: int|
        0 <= i < j < r.queue.len() ==> #[trigger] r.queue[i].id < #[trigger] r.queue[j].id)
    &&& (forall|i: int| 0 <= i < r.queue.len() ==> #[trigger] r.queue[i].id < r.next_msg_id)
}

/// Whether some stored user carries this username.
pub open spec fn has_username(users: Seq<UserV>, name: Seq<char>) -> bool {
    exists|i: int| 0 <= i < users.len() && #[trigger] users[i].username == name
}

/// Whether some stored user carries this identifier.
pub open spec fn has_user_id(users: Seq<UserV>, id: u64) -> bool {
    exists|i: int| 0 <= i < users.len() && #[trigger] users[i].id == id
}

/// Whether the queue holds a message with this identifier.
pub open spec fn has_msg_id(queue: Seq<MsgV>, id: u64) -> bool {
    exists|i: int| 0 <= i < queue.len() && #[trigger] queue[i].id == id
}

/// The oldest queued message addressed to this recipient, if any: the
/// earliest-inserted entry, scanning from the front.
pub open spec fn next_for(queue: Seq<MsgV>, recipient: u64) -> Option<MsgV>
    decreases queue.len(),
{
    if queue.len() == 0 {
        Option::None
    } else if queue[0].recipient == recipient {
        Option::Some(queue[0])
    } else {
        next_for(queue.drop_first(), recipient)
    }
}

impl Repository {
    /// An empty store.
    pub fn new() -> (r: Repository)
        ensures
            r@.users =~= Seq::<UserV>::empty(),
            r@.queue =~= Seq::<MsgV>::empty(),
            r@.next_user_id == 1,
            r@.next_msg_id == 1,
            wf(r@),
    {
        let r = Repository { users: Vec::new(), queue: Vec::new(), next_user_id: 1, next_msg_id: 1 };
        proof {
            assert(r@.users =~= Seq::<UserV>::empty());
            assert(r@.queue =~= Seq::<MsgV>::empty());
        }
        r
    }
}

/// Create a user record at signup. Fails with a conflict exactly when the
/// username is already taken; otherwise the user is appended under a
/// fresh identifier. Nothing else changes either way.
#[verifier::loop_isolation(false)]
pub fn insert_user(repo: &mut Repository, username: String, password: String) -> (r: Result<
    (),
    RepoError,
>)
    requires
        wf(old(repo)@),
    ensures
        wf(final(repo)@),
        has_username(old(repo)@.users, username@) ==> (r matches Err(e) && e
            == RepoError::Conflict && final(repo)@ == old(repo)@),
        !has_username(old(repo)@.users, username@) && old(repo)@.next_user_id == u64::MAX ==> (
        r matches Err(e) && e == RepoError::Storage) && final(repo)@ == old(repo)@,
        !has_username(old(repo)@.users, username@) && old(repo)@.next_user_id < u64::MAX ==> (
        r matches Ok(u) && u == ()) && final(repo)@.users == old(repo)@.users.push(
            (UserV { id: old(repo)@.next_user_id, username: username@, password: password@ }),
        ) && final(repo)@.queue == old(repo)@.queue && final(repo)@.next_user_id == old(
            repo,
        )@.next_user_id + 1 && final(repo)@.next_msg_id == old(repo)@.next_msg_id,
{
    let n = repo.users.len();
    let mut i: usize = 0;
    while i < n
        invariant
            i <= n,
            forall|j: int| 0 <= j < i ==> #[trigger] repo@.users[j].username != username@,
        decreases n - i,
    {
        if repo.users[i].username == username {
            assert(repo@.users[i as int].username == username@);
            return Result::Err(RepoError::Conflict);
        }
        i = i + 1;
    }
    assert(!has_username(repo@.users, username@));
    if repo.next_user_id == u64::MAX {
        return Result::Err(RepoError::Storage);
    }
    let ghost prev = repo@;
    let id = repo.next_user_id;
    repo.next_user_id = repo.next_user_id + 1;
    repo.users.push(User { id, username, password });
    proof {
        assert(final(repo)@.users =~= prev.users.push(
            (UserV { id: prev.next_user_id, username: username@, password: password@ }),
        ));
        assert(final(repo)@.queue =~= prev.queue);
    }
    Result::Ok(())
}

/// Look a user up by username for login: their identifier and stored
/// password. Fails exactly when no user carries the username.
#[verifier::loop_isolation(false)]
pub fn get_user_from_username(repo: &Repository, username: String) -> (r: Result<
    (u64, String),
    RepoError,
>)
    ensures
        r matches Ok(p) ==> exists|i: int|
            0 <= i < repo@.users.len() && #[trigger] repo@.users[i].username == username@
                && repo@.users[i].id == p.0 && repo@.users[i].password == p.1@,
        r matches Err(e) ==> e == RepoError::NotFound && !has_username(repo@.users, username@),
        has_username(repo@.users, username@) ==> r is Ok,
{
    let n = repo.users.len();
    let mut i: usize = 0;
    while i < n
        invariant
            i <= n,
            forall|j: int| 0 <= j < i ==> #[trigger] repo@.users[j].username != username@,
        decreases n - i,
    {
        if repo.users[i].username == username {
            assert(repo@.users[i as int].username == username@);
            return Result::Ok((repo.users[i].id, repo.users[i].password.clone()));
        }
        i = i + 1;
    }
    Result::Err(RepoError::NotFound)
}

/// Look a user's identifier up by username. Fails exactly when no user
/// carries the username.
pub fn get_id_from_username(repo: &Repository, username: String) -> (r: Result<u64, RepoError>)
    ensures
        r matches Ok(id) ==> exists|i: int|
            0 <= i < repo@.users.len() && #[trigger] repo@.users[i].username == username@
                && repo@.users[i].id == id,
        r matches Err(e) ==> e == RepoError::NotFound && !has_username(repo@.users, username@),
        has_username(repo@.users, username@) ==> r is Ok,
{
    match get_user_from_username(repo, username) {
        Result::Ok((id, _)) => Result::Ok(id),
        Result::Err(e) => Result::Err(e),
    }
}

/// Look a username up by user identifier. Fails exactly when no user
/// carries the identifier.
#[verifier::loop_isolation(false)]
pub fn get_username_from_id(repo: &Repository, id: u64) -> (r: Result<String, RepoError>)
    ensures
        r matches Ok(name) ==> exists|i: int|
            0 <= i < repo@.users.len() && #[trigger] repo@.users[i].id == id
                && repo@.users[i].username == name@,
        r matches Err(e) ==> e == RepoError::NotFound && !has_user_id(repo@.users, id),
        has_user_id(repo@.users, id) ==> r is Ok,
{
    let n = repo.users.len();
    let mut i: usize = 0;
    while i < n
        invariant
            i <= n,
            forall|j: int| 0 <= j < i ==> #[trigger] repo@.users[j].id != id,
        decreases n - i,
    {
        if repo.users[i].id == id {
            assert(repo@.users[i as int].id == id);
            return Result::Ok(repo.users[i].username.clone());
        }
        i = i + 1;
    }
    Result::Err(RepoError::NotFound)
}

/// Append a message to the store-and-forward queue under a fresh
/// identifier. The records of every other message, and all user records,
/// are untouched.
pub fn insert_msg(
    repo: &mut Repository,
    sender: u64,
    recipient: u64,
    message: String,
    timestamp: String,
) -> (r: Result<(), RepoError>)
    requires
        wf(old(repo)@),
    ensures
        wf(final(repo)@),
        old(repo)@.next_msg_id == u64::MAX ==> (r matches Err(e) && e == RepoError::Storage)
            && final(repo)@ == old(repo)@,
        old(repo)@.next_msg_id < u64::MAX ==> (r matches Ok(u) && u == ()) && final(repo)@.queue
            == old(repo)@.queue.push(
            (MsgV {
                id: old(repo)@.next_msg_id,
                sender,
                recipient,
                message: message@,
                timestamp: timestamp@,
            }),
        ) && final(repo)@.users == old(repo)@.users && final(repo)@.next_msg_id == old(
            repo,
        )@.next_msg_id + 1 && final(repo)@.next_user_id == old(repo)@.next_user_id,
{
    if repo.next_msg_id == u64::MAX {
        return Result::Err(RepoError::Storage);
    }
    let ghost prev = repo@;
    let id = repo.next_msg_id;
    repo.next_msg_id = repo.next_msg_id + 1;
    repo.queue.push(QueuedMessage { id, sender, recipient, message, timestamp });
    proof {
        assert(final(repo)@.queue =~= prev.queue.push(
            (MsgV { id: prev.next_msg_id, sender, recipient, message: message@, timestamp: timestamp@ }),
        ));
        assert(final(repo)@.users =~= prev.users);
    }
    Result::Ok(())
}

proof fn lemma_next_for_at(queue: Seq<MsgV>, recipient: u64, k: int)
    requires
        0 <= k < queue.len(),
        forall|j: int| 0 <= j < k ==> #[trigger] queue[j].recipient != recipient,
        queue[k].recipient == recipient,
    ensures
        next_for(queue, recipient) == Option::Some(queue[k]),
    decreases k,
{
    if k == 0 {
    } else {
        assert(queue[0].recipient != recipient);
        assert(queue.drop_first()[k - 1] == queue[k]);
        assert(forall|j: int|
            0 <= j < k - 1 ==> #[trigger] queue.drop_first()[j] == queue[j + 1]);
        lemma_next_for_at(queue.drop_first(), recipient, k - 1);
    }
}

proof fn lemma_next_for_none(queue: Seq<MsgV>, recipient: u64)
    requires
        forall|j: int| 0 <= j < queue.len() ==> #[trigger] queue[j].recipient != recipient,
    ensures
        next_for(queue, recipient) is None,
    decreases queue.len(),
{
    if queue.len() == 0 {
    } else {
        assert(forall|j: int|
            0 <= j < queue.len() - 1 ==> #[trigger] queue.drop_first()[j] == queue[j + 1]);
        lemma_next_for_none(queue.drop_first(), recipient);
    }
}

/// Fetch the oldest queued message addressed to this recipient, with the
/// sender resolved to a username. Yields nothing when the recipient's
/// queue is empty; fails exactly when the oldest entry's sender cannot be
/// resolved. The store is read, never changed.
#[verifier::loop_isolation(false)]
pub fn get_next_msg(repo: &Repository, receiver: u64) -> (r: Result<
    Option<DBMessageQuery>,
    RepoError,
>)
    ensures
        match next_for(repo@.queue, receiver) {
            Option::Some(m) => {
                if has_user_id(repo@.users, m.sender) {
                    r matches Ok(o) && o matches Some(q) && q.id == m.id && q.message@ == m.message
                        && q.timestamp@ == m.timestamp && (exists|i: int|
                        0 <= i < repo@.users.len() && #[trigger] repo@.users[i].id == m.sender
                            && repo@.users[i].username == q.sender@)
                } else {
                    r matches Err(e) && e == RepoError::NotFound
                }
            },
            Option::None => r matches Ok(o) && o is None,
        },
{
    let n = repo.queue.len();
    let mut i: usize = 0;
    while i < n
        invariant
            i <= n,
            forall|j: int| 0 <= j < i ==> #[trigger] repo@.queue[j].recipient != receiver,
        decreases n - i,
    {
        if repo.queue[i].recipient == receiver {
            proof {
                assert(repo@.queue[i as int].recipient == receiver);
                lemma_next_for_at(repo@.queue, receiver, i as int);
            }
            let m = &repo.queue[i];
            match get_username_from_id(repo, m.sender) {
                Result::Ok(sender_name) => {
                    return Result::Ok(
                        Option::Some(
                            DBMessageQuery {
                                id: m.id,
                                sender: sender_name,
                                message: m.message.clone(),
                                timestamp: m.timestamp.clone(),
                            },
                        ),
                    );
                },
                Result::Err(_) => {
                    return Result::Err(RepoError::NotFound);
                },
            }
        }
        i = i + 1;
    }
    proof {
        lemma_next_for_none(repo@.queue, receiver);
    }
    Result::Ok(Option::None)
}

/// The position of the message with this identifier, scanning from the
/// front, or the queue's length when no entry carries it.
pub open spec fn msg_index_of(queue: Seq<MsgV>, id: u64) -> int
    decreases queue.len(),
{
    if queue.len() == 0 {
        0
    } else if queue[0].id == id {
        0
    } else {
        1 + msg_index_of(queue.drop_first(), id)
    }
}

proof fn lemma_msg_index_of(queue: Seq<MsgV>, id: u64)
    ensures
        0 <= msg_index_of(queue, id) <= queue.len(),
        msg_index_of(queue, id) < queue.len() ==> queue[msg_index_of(queue, id)].id == id,
        forall|j: int| 0 <= j < msg_index_of(queue, id) ==> #[trigger] queue[j].id != id,
        msg_index_of(queue, id) == queue.len() ==> !has_msg_id(queue, id),
    decreases queue.len(),
{
    if queue.len() == 0 {
    } else if queue[0].id == id {
    } else {
        lemma_msg_index_of(queue.drop_first(), id);
        assert(forall|j: int|
            0 <= j < queue.len() - 1 ==> #[trigger] queue.drop_first()[j] == queue[j + 1]);
        let ix = msg_index_of(queue, id);
        assert forall|j: int| 0 <= j < ix implies #[trigger] queue[j].id != id by {
            if j > 0 {
                assert(queue.drop_first()[j - 1] == queue[j]);
                assert(queue.drop_first()[j - 1].id != id);
            }
        }
        if ix == queue.len() {
            assert forall|j: int| 0 <= j < queue.len() implies #[trigger] queue[j].id != id by {
                if j > 0 {
                    assert(queue.drop_first()[j - 1] == queue[j]);
                }
            }
        }
    }
}

/// Delete a message from the queue by identifier, once it has been
/// delivered. Deleting an identifier that is not queued succeeds and
/// changes nothing; afterwards, no queued message carries the identifier.
#[verifier::loop_isolation(false)]
pub fn delete_msg(repo: &mut Repository, id: u64) -> (r: Result<(), RepoError>)
    requires
        wf(old(repo)@),
    ensures
        wf(final(repo)@),
        r is Ok,
        !has_msg_id(old(repo)@.queue, id) ==> final(repo)@ == old(repo)@,
        has_msg_id(old(repo)@.queue, id) ==> final(repo)@.queue == old(repo)@.queue.remove(
            msg_index_of(old(repo)@.queue, id),
        ) && final(repo)@.users == old(repo)@.users && final(repo)@.next_user_id == old(
            repo,
        )@.next_user_id && final(repo)@.next_msg_id == old(repo)@.next_msg_id,
        !has_msg_id(final(repo)@.queue, id),
{
    proof {
        lemma_msg_index_of(old(repo)@.queue, id);
    }
    let n = repo.queue.len();
    let mut i: usize = 0;
    while i < n
        invariant
            i <= n,
            repo@ == old(repo)@,
            n == repo@.queue.len(),
            forall|j: int| 0 <= j < i ==> #[trigger] repo@.queue[j].id != id,
        decreases n - i,
    {
        if repo.queue[i].id == id {
            proof {
                assert(repo@.queue[i as int].id == id);
                assert(msg_index_of(repo@.queue, id) == i as int) by {
                    lemma_msg_index_of(repo@.queue, id);
                    let ix = msg_index_of(repo@.queue, id);
                    if ix < i as int {
                        assert(repo@.queue[ix].id != id);
                        assert(false);
                    }
                    if ix > i as int {
                        assert(repo@.queue[i as int].id != id);
                        assert(false);
                    }
                };
            }
            let ghost prev = repo@;
            let _removed = repo.queue.remove(i);
            proof {
                assert(final(repo)@.queue =~= prev.queue.remove(i as int));
                assert(final(repo)@.users =~= prev.users);
                let ghost cur = final(repo)@;
                assert forall|j: int| 0 <= j < cur.queue.len() implies #[trigger] cur.queue[j].id
                    != id by {
                    if j < i as int {
                        assert(cur.queue[j] == prev.queue[j]);
                    } else {
                        assert(cur.queue[j] == prev.queue[j + 1]);
                        assert(prev.queue[i as int].id < prev.queue[j + 1].id);
                    }
                }
            }
            return Result::Ok(());
        }
        i = i + 1;
    }
    assert(!has_msg_id(repo@.queue, id));
    Result::Ok(())
}

// ---------------------------------------------------------------------------
// Delivery laws
// ---------------------------------------------------------------------------

/// What the queue hands out is a queue entry: the next message for a
/// recipient, when there is one, is queued, addressed to that recipient,
/// and no younger than any other queued message for them.
pub proof fn lemma_next_for_is_oldest(queue: Seq<MsgV>, recipient: u64)
    requires
        forall|i: int, j: int|
            0 <= i < j < queue.len() ==> #[trigger] queue[i].id < #[trigger] queue[j].id,
    ensures
        next_for(queue, recipient) matches Some(m) ==> has_msg_id(queue, m.id) && m.recipient
            == recipient && (forall|j: int|
            0 <= j < queue.len() && #[trigger] queue[j].recipient == recipient ==> m.id
                <= queue[j].id),
    decreases queue.len(),
{
    if queue.len() == 0 {
    } else if queue[0].recipient == recipient {
        assert(queue[0].id == queue[0].id);
        assert(has_msg_id(queue, queue[0].id));
        assert forall|j: int|
            0 <= j < queue.len() && #[trigger] queue[j].recipient == recipient implies queue[0].id
            <= queue[j].id by {
            if j > 0 {
                assert(queue[0].id < queue[j].id);
            }
        }
    } else {
        lemma_next_for_is_oldest(queue.drop_first(), recipient);
        assert(forall|j: int|
            0 <= j < queue.len() - 1 ==> #[trigger] queue.drop_first()[j] == queue[j + 1]);
        match next_for(queue.drop_first(), recipient) {
            Option::Some(m) => {
                assert(has_msg_id(queue.drop_first(), m.id));
                let w = choose|i: int|
                    0 <= i < queue.drop_first().len() && #[trigger] queue.drop_first()[i].id
                        == m.id;
                assert(queue[w + 1].id == m.id);
                assert(has_msg_id(queue, m.id));
                assert forall|j: int|
                    0 <= j < queue.len() && #[trigger] queue[j].recipient
                        == recipient implies m.id <= queue[j].id by {
                    assert(j > 0);
                    assert(queue.drop_first()[j - 1] == queue[j]);
                    assert(queue.drop_first()[j - 1].recipient == recipient);
                }
            },
            Option::None => {},
        }
    }
}

/// No duplicate delivery: once a message identifier has left the queue,
/// no poll for any recipient hands a message with that identifier out
/// again.
pub proof fn lemma_retired_not_delivered(queue: Seq<MsgV>, id: u64, recipient: u64)
    requires
        !has_msg_id(queue, id),
    ensures
        next_for(queue, recipient) matches Some(m) ==> m.id != id,
    decreases queue.len(),
{
    if queue.len() == 0 {
    } else if queue[0].recipient == recipient {
        assert(queue[0].id != id);
    } else {
        assert forall|j: int|
            0 <= j < queue.drop_first().len() implies #[trigger] queue.drop_first()[j].id
            != id by {
            assert(queue.drop_first()[j] == queue[j + 1]);
        }
        lemma_retired_not_delivered(queue.drop_first(), id, recipient);
    }
}

/// A retired identifier stays retired: an enqueue appends only a fresh
/// identifier, so an identifier once below the fresh bound and absent
/// from the queue is still absent, and still below the bound, afterwards.
pub proof fn lemma_retired_after_enqueue(queue: Seq<MsgV>, m: MsgV, id: u64, next: u64)
    requires
        !has_msg_id(queue, id),
        id < next,
        m.id == next,
    ensures
        !has_msg_id(queue.push(m), id),
    decreases queue.len(),
{
    assert forall|j: int| 0 <= j < queue.push(m).len() implies #[trigger] queue.push(m)[j].id
        != id by {
        if j < queue.len() {
            assert(queue.push(m)[j] == queue[j]);
            assert(queue[j].id != id);
        } else {
            assert(queue.push(m)[j] == m);
        }
    }
}

} // verus!
