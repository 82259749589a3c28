use vstd::prelude::*;

verus! {

/// One entry of a map's trigger string table.
#[derive(Debug, Clone, PartialEq, Eq)]
pub struct TriggerString {
    pub id: u32,
    pub value: String,
}

/// A player slot as a map's info file describes it; `name` is a trigger string id.
#[derive(Debug, Clone, Copy, PartialEq, Eq, Structural)]
pub struct MapInfoPlayer {
    pub name: u32,
    pub player_type: u32,
    pub race: u32,
    pub flags: u32,
}

/// A force as a map's info file describes it; `name` is a trigger string id.
#[derive(Debug, Clone, Copy, PartialEq, Eq, Structural)]
pub struct MapInfoForce {
    pub name: u32,
    pub flags: u32,
    pub player_set: u32,
}

/// What a map's info file holds; names are trigger string ids. Player slots come in the
/// classic or the reforged layout.
#[derive(Debug, Clone, PartialEq, Eq)]
pub struct MapInfo {
    pub name: u32,
    pub author: u32,
    pub description: u32,
    pub suggested_players: u32,
    pub width: u32,
    pub height: u32,
    pub num_players: u32,
    pub num_forces: u32,
    pub players_classic: Option<Vec<MapInfoPlayer>>,
    pub players_reforged: Option<Vec<MapInfoPlayer>>,
    pub forces: Vec<MapInfoForce>,
}

/// A player slot of a map, with its name resolved.
#[derive(Debug, Clone, PartialEq, Eq)]
pub struct MapPlayer {
    pub name: String,
    pub player_type: u32,
    pub race: u32,
    pub flags: u32,
}

/// A force of a map, with its name resolved.
#[derive(Debug, Clone, PartialEq, Eq)]
pub struct MapForce {
    pub name: String,
    pub flags: u32,
    pub player_set: u32,
}

/// The text of trigger string `id`: the first entry with that id.
pub open spec fn trigger_lookup(t: Seq<TriggerString>, id: u32) -> Option<Seq<char>>
    decreases t.len(),
{
    if t.len() == 0 {
        None
    } else if t[0].id == id {
        Some(t[0].value@)
    } else {
        trigger_lookup(t.subrange(1, t.len() as int), id)
    }
}

/// The text of trigger string `id`, or the empty text when there is none.
pub open spec fn trigger_text(t: Seq<TriggerString>, id: u32) -> Seq<char> {
    match trigger_lookup(t, id) {
        Some(s) => s,
        None => Seq::empty(),
    }
}

/// The text of trigger string `id`, or the empty text when there is none.
pub fn trigger_text_of(t: &Vec<TriggerString>, id: u32) -> (r: String)
    ensures
        r@ == trigger_text(t@, id),
{
    let mut i: usize = 0;
    assert(t@.subrange(0, t.len() as int) =~= t@);
    while i < t.len()
        invariant
            i <= t.len(),
            trigger_lookup(t@, id) == trigger_lookup(t@.subrange(i as int, t.len() as int), id),
        decreases t.len() - i,
    {
        let ghost rest = t@.subrange(i as int, t.len() as int);
        assert(rest[0] == t@[i as int]);
        assert(rest.subrange(1, rest.len() as int) =~= t@.subrange(i + 1, t.len() as int));
        if t[i].id == id {
            return t[i].value.clone();
        }
        i = i + 1;
    }
    String::new()
}

/// A map's metadata: its texts resolved, its size, its players and forces.
#[derive(Debug, Clone, PartialEq, Eq)]
pub struct W3Map {
    name: String,
    author: String,
    description: String,
    suggested_players: String,
    file_size: usize,
    info: MapInfo,
    trigger_strings: Vec<TriggerString>,
}

/// The resolved players of a layout.
pub open spec fn resolved_players(ps: Seq<MapInfoPlayer>, t: Seq<TriggerString>, r: Seq<MapPlayer>) -> bool {
    &&& r.len() == ps.len()
    &&& forall|i: int|
        #![trigger r[i]]
        0 <= i < r.len() ==> r[i].name@ == trigger_text(t, ps[i].name) && r[i].player_type
            == ps[i].player_type && r[i].race == ps[i].race && r[i].flags == ps[i].flags
}

fn resolve_players(ps: &Vec<MapInfoPlayer>, t: &Vec<TriggerString>) -> (r: Vec<MapPlayer>)
    ensures
        resolved_players(ps@, t@, r@),
{
    let mut r: Vec<MapPlayer> = Vec::new();
    let mut i: usize = 0;
    while i < ps.len()
        invariant
            i <= ps.len(),
            r@.len() == i,
            forall|k: int|
                #![trigger r@[k]]
                0 <= k < i ==> r@[k].name@ == trigger_text(t@, ps@[k].name) && r@[k].player_type
                    == ps@[k].player_type && r@[k].race == ps@[k].race && r@[k].flags == ps@[k].flags,
        decreases ps.len() - i,
    {
        let p = ps[i];
        r.push(
            MapPlayer {
                name: trigger_text_of(t, p.name),
                player_type: p.player_type,
                race: p.race,
                flags: p.flags,
            },
        );
        i = i + 1;
    }
    r
}

impl W3Map {
    pub closed spec fn info(&self) -> MapInfo {
        self.info
    }

    pub closed spec fn trigger_strings(&self) -> Seq<TriggerString> {
        self.trigger_strings@
    }

    pub closed spec fn spec_file_size(&self) -> usize {
        self.file_size
    }

    pub closed spec fn spec_name(&self) -> Seq<char> {
        self.name@
    }

    pub closed spec fn spec_author(&self) -> Seq<char> {
        self.author@
    }

    pub closed spec fn spec_description(&self) -> Seq<char> {
        self.description@
    }

    pub closed spec fn spec_suggested_players(&self) -> Seq<char> {
        self.suggested_players@
    }

    /// A map from its decoded info file, its trigger strings and its file size; its texts
    /// are resolved, empty when the table lacks them.
    pub fn from_parts(info: MapInfo, trigger_strings: Vec<TriggerString>, file_size: usize) -> (r: W3Map)
        ensures
            r.info() == info,
            r.trigger_strings() == trigger_strings@,
            r.spec_file_size() == file_size,
            r.spec_name() == trigger_text(trigger_strings@, info.name),
            r.spec_author() == trigger_text(trigger_strings@, info.author),
            r.spec_description() == trigger_text(trigger_strings@, info.description),
            r.spec_suggested_players() == trigger_text(trigger_strings@, info.suggested_players),
    {
        W3Map {
            name: trigger_text_of(&trigger_strings, info.name),
            author: trigger_text_of(&trigger_strings, info.author),
            description: trigger_text_of(&trigger_strings, info.description),
            suggested_players: trigger_text_of(&trigger_strings, info.suggested_players),
            file_size,
            info,
            trigger_strings,
        }
    }

    pub fn file_size(&self) -> (r: usize)
        ensures
            r == self.spec_file_size(),
    {
        self.file_size
    }

    pub fn name(&self) -> (r: &str)
        ensures
            r@ == self.spec_name(),
    {
        self.name.as_str()
    }

    pub fn description(&self) -> (r: &str)
        ensures
            r@ == self.spec_description(),
    {
        self.description.as_str()
    }

    pub fn author(&self) -> (r: &str)
        ensures
            r@ == self.spec_author(),
    {
        self.author.as_str()
    }

    pub fn suggested_players(&self) -> (r: &str)
        ensures
            r@ == self.spec_suggested_players(),
    {
        self.suggested_players.as_str()
    }

    /// Width and height.
    pub fn dimension(&self) -> (r: (u32, u32))
        ensures
            r == (self.info().width, self.info().height),
    {
        (self.info.width, self.info.height)
    }

    pub fn num_players(&self) -> (r: u32)
        ensures
            r == self.info().num_players,
    {
        self.info.num_players
    }

    pub fn num_forces(&self) -> (r: u32)
        ensures
            r == self.info().num_forces,
    {
        self.info.num_forces
    }

    /// The map's player slots with names resolved: the classic layout when present, else the
    /// reforged one, else none.
    pub fn get_players(&self) -> (r: Vec<MapPlayer>)
        ensures
            self.info().players_classic matches Some(ps) ==> resolved_players(ps@, self.trigger_strings(), r@),
            self.info().players_classic is None ==> (self.info().players_reforged matches Some(ps)
                ==> resolved_players(ps@, self.trigger_strings(), r@)),
            self.info().players_classic is None && self.info().players_reforged is None ==> r@.len() == 0,
    {
        match &self.info.players_classic {
            Some(ps) => resolve_players(ps, &self.trigger_strings),
            None => match &self.info.players_reforged {
                Some(ps) => resolve_players(ps, &self.trigger_strings),
                None => Vec::new(),
            },
        }
    }

    /// The map's forces with names resolved.
    pub fn get_forces(&self) -> (r: Vec<MapForce>)
        ensures
            r@.len() == self.info().forces@.len(),
            forall|i: int|
                #![trigger r@[i]]
                0 <= i < r@.len() ==> r@[i].name@ == trigger_text(self.trigger_strings(), self.info().forces@[i].name)
                    && r@[i].flags == self.info().forces@[i].flags && r@[i].player_set == self.info().forces@[i].player_set,
    {
        let fs = &self.info.forces;
        let mut r: Vec<MapForce> = Vec::new();
        let mut i: usize = 0;
        while i < fs.len()
            invariant
                i <= fs.len(),
                fs@ == self.info().forces@,
                r@.len() == i,
                forall|k: int|
                    #![trigger r@[k]]
                    0 <= k < i ==> r@[k].name@ == trigger_text(self.trigger_strings(), fs@[k].name)
                        && r@[k].flags == fs@[k].flags && r@[k].player_set == fs@[k].player_set,
            decreases fs.len() - i,
        {
            let f = fs[i];
            r.push(
                MapForce {
                    name: trigger_text_of(&self.trigger_strings, f.name),
                    flags: f.flags,
                    player_set: f.player_set,
                },
            );
            i = i + 1;
        }
        r
    }
}

} // verus!
