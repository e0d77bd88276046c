use vstd::prelude::*;

use super::{amulet_at_farthest, start_index, usable_distances, MapArchitect, MapBuilder};
use crate::map::{lemma_index_coordinates, DungeonMap, TileType, NUM_TILES};
use crate::geometry::Point;
use bracket_lib::prelude::RandomNumberGenerator;

verus! {

/// Lays a map out as rooms joined by corridors.
pub struct RoomsArchitect {}

impl RoomsArchitect {
    /// Lays the map out: fills it with walls, digs random rooms and the corridors between them,
    /// starts the player at the first room's center and spawns a monster at every other room's
    /// center. The amulet's place is left at the origin; `build` settles it.
    pub fn lay_out(&mut self, rng: &mut RandomNumberGenerator) -> (mb: MapBuilder)
        ensures
            mb.is_rooms_layout(),
            mb.amulet_start == (Point { x: 0, y: 0 }),
    {
        let mut mb = MapBuilder::new();
        mb.fill(TileType::Wall);
        let ghost walls = mb.map.tiles@;
        let draws = mb.build_random_rooms(rng);
        let ghost dug = mb.map.tiles@;
        proof {
            assert(mb.rooms@.skip(0) =~= mb.rooms@);
            assert forall|k: int| 0 <= k < mb.rooms@.len() implies (#[trigger] mb.rooms@[k]).center_fits() by {
                super::lemma_drawn_center(mb.rooms@[k]);
            }
        }
        mb.build_corridors(rng);
        mb.player_start = mb.rooms[0].center();
        let n = mb.rooms.len();
        let ghost laid_tiles = mb.map.tiles@;
        let ghost laid_rooms = mb.rooms@;
        let ghost player = mb.player_start;
        let ghost amulet = mb.amulet_start;
        let mut k: usize = 1;
        while k < n
            invariant
                1 <= k <= n,
                n == mb.rooms@.len(),
                mb.monster_spawns@.len() + 1 == k,
                mb.map.tiles@ == laid_tiles,
                mb.rooms@ == laid_rooms,
                mb.player_start == player,
                mb.amulet_start == amulet,
                forall|j: int| 0 <= j < mb.rooms@.len() ==> super::drawn_room(#[trigger] mb.rooms@[j]),
                forall|j: int|
                    0 <= j < mb.monster_spawns@.len() ==> #[trigger] mb.monster_spawns@[j]
                        == mb.rooms@[j + 1].center_point(),
            decreases n - k,
        {
            proof {
                super::lemma_drawn_center(mb.rooms@[k as int]);
            }
            let c = mb.rooms[k].center();
            mb.monster_spawns.push(c);
            k = k + 1;
        }
        mb.room_draws = draws;
        proof {
            super::lemma_drawn_center(mb.rooms@[0]);
            assert(walls =~= super::filled(NUM_TILES as nat, TileType::Wall));
        }
        mb
    }
}

impl MapArchitect for RoomsArchitect {
    /// Lays the map out (see `lay_out`), then puts the amulet on the reached tile farthest from
    /// the player's start, by the distances that `distances_from` gives for the laid-out map and
    /// the start's index. Gives `None` when those distances are not one per tile, or reach no
    /// tile.
    fn build<F: Fn(&DungeonMap, usize) -> Vec<Option<u32>>>(
        &mut self,
        rng: &mut RandomNumberGenerator,
        distances_from: &F,
    ) -> (r: Option<MapBuilder>) {
        let mut mb = self.lay_out(rng);
        proof {
            super::lemma_rooms_layout(mb);
            lemma_index_coordinates(mb.player_start.x as int, mb.player_start.y as int);
        }
        let start = mb.map.point2d_to_index(mb.player_start);
        let distances = distances_from(&mb.map, start);
        assert(start == start_index(mb) as usize);
        assert(distances_from.ensures((&mb.map, start_index(mb) as usize), distances));
        if distances.len() != NUM_TILES {
            assert(!usable_distances(distances@));
            return None;
        }
        let mut i: usize = 0;
        let mut reached = false;
        while i < distances.len() && !reached
            invariant
                i <= distances@.len(),
                reached ==> exists|j: int| 0 <= j < distances@.len() && (#[trigger] distances@[j]) is Some,
                !reached ==> forall|j: int| 0 <= j < i ==> (#[trigger] distances@[j]) is None,
            decreases distances@.len() - i + (if reached { 0int } else { 1int }),
        {
            if distances[i].is_some() {
                reached = true;
            } else {
                i = i + 1;
            }
        }
        if !reached {
            assert(!usable_distances(distances@));
            return None;
        }
        mb.place_amulet(&distances);
        assert(distances_from.ensures((&mb.map, start_index(mb) as usize), distances));
        assert(amulet_at_farthest(mb, distances@));
        assert(usable_distances(distances@));
        Some(mb)
    }
}

} // verus!
