//! Resolution of a configured human-readable recipient name to the opaque
//! destination identifier of the first directory member carrying that name.

use vstd::prelude::*;

verus! {

/// What the lookup reads of one directory member: its display name and its
/// opaque identifier, either of which the directory may have left unset.
pub struct Member {
    pub name: Option<String>,
    pub id: Option<String>,
}

/// Whether a member carries exactly the queried name.
pub open spec fn member_matches(m: Member, name: Seq<char>) -> bool {
    m.name matches Some(n) && n@ == name
}

/// Whether no member before index `k` matches the queried name.
pub open spec fn no_match_before(ms: Seq<Member>, name: Seq<char>, k: int) -> bool {
    forall|j: int| 0 <= j < k ==> !member_matches(ms[j], name)
}

/// The identifier of the first member whose name equals `user_name`.
///
/// Succeeds if and only if such a member exists and carries an identifier;
/// the two failures are told apart exactly as the caller reports them.
pub fn find_user_id(members: &Vec<Member>, user_name: &str) -> (r: Result<String, String>)
    ensures
        ({
            let ms = members@;
            let name = user_name@;
            &&& (r is Ok <==> exists|i: int|
                0 <= i < ms.len() && #[trigger] member_matches(ms[i], name) && no_match_before(
                    ms,
                    name,
                    i,
                ) && ms[i].id is Some)
            &&& (r matches Ok(id) ==> exists|i: int|
                0 <= i < ms.len() && #[trigger] member_matches(ms[i], name) && no_match_before(
                    ms,
                    name,
                    i,
                ) && (ms[i].id matches Some(s) && id@ == s@))
            &&& (r matches Err(e) ==> {
                if no_match_before(ms, name, ms.len() as int) {
                    e@ == "could not find user "@ + name
                } else {
                    e@ == "could not get ID of user "@ + name
                }
            })
        }),
{
    let query: String = user_name.to_owned();
    let mut i: usize = 0;
    while i < members.len()
        invariant
            i <= members@.len(),
            query@ == user_name@,
            no_match_before(members@, user_name@, i as int),
        decreases members@.len() - i,
    {
        let hit = match &members[i].name {
            Some(n) => *n == query,
            None => false,
        };
        if hit {
            proof {
                assert(member_matches(members@[i as int], user_name@));
            }
            match &members[i].id {
                Some(id) => {
                    return Ok(id.clone());
                },
                None => {
                    let mut e = String::new();
                    e.append("could not get ID of user ");
                    e.append(user_name);
                    return Err(e);
                },
            }
        }
        i = i + 1;
    }
    let mut e = String::new();
    e.append("could not find user ");
    e.append(user_name);
    Err(e)
}

} // verus!
