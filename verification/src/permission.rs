//! Who may run the management commands.
use vstd::prelude::*;

verus! {

/// An empty admin list lets everyone manage; otherwise only listed users may.
pub open spec fn may_manage(user_id: i64, admin_users: Seq<i64>) -> bool {
    admin_users.len() == 0 || admin_users.contains(user_id)
}

/// Whether `user_id` may run the management commands.
pub fn is_superuser(user_id: i64, admin_users: &[i64]) -> (r: bool)
    ensures
        r == may_manage(user_id, admin_users@),
{
    if admin_users.len() == 0 {
        return true;
    }
    let mut i: usize = 0;
    while i < admin_users.len()
        invariant
            i <= admin_users@.len(),
            forall|k: int| 0 <= k < i ==> admin_users@[k] != user_id,
        decreases admin_users@.len() - i,
    {
        if admin_users[i] == user_id {
            assert(admin_users@[i as int] == user_id);
            return true;
        }
        i = i + 1;
    }
    false
}

/// Who may manage: with an empty admin list everyone, otherwise exactly
/// the users listed at any position of the list.
pub proof fn lemma_listed_users_manage(user_id: i64, admin_users: Seq<i64>)
    ensures
        admin_users.len() == 0 ==> may_manage(user_id, admin_users),
        forall|k: int| 0 <= k < admin_users.len() && admin_users[k] == user_id ==> may_manage(user_id, admin_users),
        admin_users.len() > 0 && (forall|k: int| 0 <= k < admin_users.len() ==> admin_users[k] != user_id)
            ==> !may_manage(user_id, admin_users),
{
    assert forall|k: int| 0 <= k < admin_users.len() && admin_users[k] == user_id implies may_manage(user_id, admin_users) by {
        assert(admin_users.contains(user_id));
    }
}

} // verus!
