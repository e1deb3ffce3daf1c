//! Menu interaction: the engine's side of the menu screen.
//!
//! Drawing the menu and reading raw keys belong to the host loop;
//! the engine only decides what a frame's command means while the
//! menu is open.

use vstd::prelude::*;

use crate::Command;
use crate::components::Entity;
use crate::world::World;

verus! {

/// The names of the items the given collector carries, among the
/// first `k` entities, in entity order.
pub open spec fn owned_names_upto(w: World, owner: int, k: int) -> Seq<Seq<char>>
    decreases k,
{
    if k <= 0 {
        Seq::empty()
    } else {
        let prev = owned_names_upto(w, owner, k - 1);
        if w.live(k - 1) && w.inventories@[k - 1] is Some && w.inventories@[k - 1]->Some_0.owner
            == owner && w.names@[k - 1] is Some {
            prev.push(w.names@[k - 1]->Some_0.name@)
        } else {
            prev
        }
    }
}

/// Lists the names of the items a collector carries, for the
/// presentation layer to draw: exactly the named, live entities
/// whose inventory record points at `owner`, in entity order.
pub fn inventory_names(w: &World, owner: Entity) -> (r: Vec<String>)
    requires
        w.wf(),
    ensures
        r@.len() == owned_names_upto(*w, owner as int, w.n()).len(),
        forall|j: int|
            0 <= j < r@.len() ==> (#[trigger] r@[j])@ == owned_names_upto(
                *w,
                owner as int,
                w.n(),
            )[j],
{
    let n = w.len();
    let mut names: Vec<String> = Vec::new();
    let mut e: usize = 0;
    while e < n
        invariant
            w.wf(),
            n == w.n(),
            e <= n,
            names@.len() == owned_names_upto(*w, owner as int, e as int).len(),
            forall|j: int|
                0 <= j < names@.len() ==> (#[trigger] names@[j])@ == owned_names_upto(
                    *w,
                    owner as int,
                    e as int,
                )[j],
        decreases n - e,
    {
        let mut keep = false;
        if w.alive[e] {
            if let Some(pack) = w.inventories[e] {
                if pack.owner == owner {
                    keep = match &w.names[e] {
                        Some(_) => true,
                        None => false,
                    };
                }
            }
        }
        if keep {
            let name = match &w.names[e] {
                Some(nm) => nm.name.clone(),
                None => String::new(),
            };
            names.push(name);
        }
        e = e + 1;
    }
    names
}

/// The outcome of one frame on the menu screen.
#[derive(Clone, Copy, PartialEq, Eq, Structural, Debug)]
pub enum MenuResult {
    Cancel,
    NoResponse,
}

/// Decides what a frame on the menu screen does: the menu key closes
/// the menu again, anything else leaves it open. Quitting outright
/// is the host loop's affair.
pub fn show_menu(cmd: Option<Command>) -> (r: MenuResult)
    ensures
        r == (if cmd == Some(Command::OpenMenu) {
            MenuResult::Cancel
        } else {
            MenuResult::NoResponse
        }),
{
    match cmd {
        Some(Command::OpenMenu) => MenuResult::Cancel,
        _ => MenuResult::NoResponse,
    }
}

} // verus!
