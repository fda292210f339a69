//! The authorization gate: decides whether a sender may enter the
//! conversation, and silently registers first-contact senders when the
//! auth policy is off.

use vstd::prelude::*;

verus! {

use crate::catalog::{find_user, Catalog, CatalogV};
use crate::models::UserV;
use crate::private_chat::spec_authorized;
use crate::update::{Sender, SenderV};

/// The user record the authorization check registers for a first-contact sender when the
/// auth policy is off: inactive and not an admin.
pub open spec fn spec_registered_user(sender: SenderV) -> UserV {
    UserV {
        id: sender.id as int,
        username: sender.username,
        first_name: sender.first_name,
        last_name: sender.last_name,
        is_admin: false,
        active: false,
    }
}

/// The catalog after the authorization check has seen `sender`: unchanged, except that
/// with the auth policy off an unknown sender is registered.
pub open spec fn spec_catalog_after_auth(cat: CatalogV, use_auth: bool, sender: SenderV) -> CatalogV {
    if !use_auth && find_user(cat.users, sender.id as int) is None {
        CatalogV { users: cat.users.push(spec_registered_user(sender)), ..cat }
    } else {
        cat
    }
}

/// Decides whether `sender` may use the conversation.  With `use_auth`
/// on, only a registered user with `active` set passes; with it off,
/// everyone passes, and an unknown sender is registered on the spot,
/// inactive, awaiting activation by an admin.
pub fn auth_user(catalog: &mut Catalog, use_auth: bool, sender: &Sender) -> (r: bool)
    requires
        old(catalog).wf(),
    ensures
        final(catalog).wf(),
        r == spec_authorized(use_auth, find_user(old(catalog)@.users, sender.id as int)),
        final(catalog)@ == spec_catalog_after_auth(old(catalog)@, use_auth, sender@),
{
    let existing = catalog.get_user(sender.id);
    if use_auth {
        let r = match existing {
            Some(u) => u.active,
            None => false,
        };
        proof {
            assert(catalog@ =~= spec_catalog_after_auth(old(catalog)@, use_auth, sender@));
        }
        r
    } else {
        if existing.is_none() {
            let username = match &sender.username {
                Some(s) => Some(s.clone()),
                None => None,
            };
            let last_name = match &sender.last_name {
                Some(s) => Some(s.clone()),
                None => None,
            };
            let created = catalog.create_user(
                sender.id,
                username,
                sender.first_name.clone(),
                last_name,
                false,
                false,
            );
            proof {
                assert(created is Ok);
                assert(catalog@.users =~= old(catalog)@.users.push(spec_registered_user(sender@)));
                assert(catalog@ =~= spec_catalog_after_auth(old(catalog)@, use_auth, sender@));
            }
        } else {
            proof {
                assert(catalog@ =~= spec_catalog_after_auth(old(catalog)@, use_auth, sender@));
            }
        }
        true
    }
}

} // verus!
