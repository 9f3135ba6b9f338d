//! The parameters of one generated planet, and how they are written out.

use vstd::prelude::*;
use vstd::string::StringExecFns;
use crate::text::{
    decimal_text, json_quoted, json_string, lemma_decimal_round_trip, lemma_json_quoted_cancels,
    push_decimal, u64_text,
};

verus! {

/// One generated planet. The three climate readings are kept as the decimal
/// text in which they are written out; the library never computes with them.
#[derive(Debug, PartialEq, Eq)]
pub struct World {
    pub name: String,
    pub id: u64,
    pub seed: String,
    pub sea_level: String,
    pub temperature: String,
    pub humidity: String,
}

/// The mathematical value of a `World`.
pub ghost struct WorldView {
    pub name: Seq<char>,
    pub id: u64,
    pub seed: Seq<char>,
    pub sea_level: Seq<char>,
    pub temperature: Seq<char>,
    pub humidity: Seq<char>,
}

impl View for World {
    type V = WorldView;

    open spec fn view(&self) -> WorldView {
        WorldView {
            name: self.name@,
            id: self.id,
            seed: self.seed@,
            sea_level: self.sea_level@,
            temperature: self.temperature@,
            humidity: self.humidity@,
        }
    }
}

/// The line that describes a world to a reader.
pub open spec fn world_line(world: WorldView) -> Seq<char> {
    "ID: "@ + decimal_text(world.id as nat) + " Name: "@ + world.name + " Seed: "@ + world.seed
        + " Sea Level: "@ + world.sea_level + " Temperature: "@ + world.temperature
        + " Humidity: "@ + world.humidity
}

/// The JSON object that stands for a world on the wire. Every value is a
/// JSON string, the numbers too: the identifier in decimal, each text with
/// its quotation marks, backslashes and control characters escaped.
pub open spec fn world_json(world: WorldView) -> Seq<char> {
    "{\"name\":"@ + json_quoted(world.name) + ",\"id\":"@ + json_quoted(
        decimal_text(world.id as nat),
    ) + ",\"seed\":"@ + json_quoted(world.seed) + ",\"sea_level\":"@ + json_quoted(
        world.sea_level,
    ) + ",\"temperature\":"@ + json_quoted(world.temperature) + ",\"humidity\":"@
        + json_quoted(world.humidity) + "}"@
}

/// The six values of a world in the order in which its JSON holds them, as
/// texts: name, identifier, seed, sea level, temperature and humidity.
pub open spec fn field_text(world: WorldView, field: nat) -> Seq<char> {
    if field == 0 {
        world.name
    } else if field == 1 {
        decimal_text(world.id as nat)
    } else if field == 2 {
        world.seed
    } else if field == 3 {
        world.sea_level
    } else if field == 4 {
        world.temperature
    } else {
        world.humidity
    }
}

/// What stands in the JSON of a world between the value `field` and the
/// value after it; after the last value, the closing brace.
pub open spec fn text_after(field: nat) -> Seq<char> {
    if field == 0 {
        ",\"id\":"@
    } else if field == 1 {
        ",\"seed\":"@
    } else if field == 2 {
        ",\"sea_level\":"@
    } else if field == 3 {
        ",\"temperature\":"@
    } else if field == 4 {
        ",\"humidity\":"@
    } else {
        "}"@
    }
}

/// The JSON of a world from the value `field` on.
pub open spec fn world_json_from(world: WorldView, field: nat) -> Seq<char>
    decreases 6 - field,
{
    if field < 5 {
        json_quoted(field_text(world, field)) + (text_after(field) + world_json_from(
            world,
            field + 1,
        ))
    } else {
        json_quoted(field_text(world, field)) + text_after(field)
    }
}

/// Three texts in a row are the same text however they are grouped.
proof fn lemma_regroup(x: Seq<char>, y: Seq<char>, z: Seq<char>)
    ensures
        (x + y) + z == x + (y + z),
{
    assert((x + y) + z =~= x + (y + z));
}

/// If two texts begin with the same piece and are equal, what follows the
/// piece is equal.
proof fn lemma_same_start(piece: Seq<char>, x: Seq<char>, y: Seq<char>)
    requires
        piece + x == piece + y,
    ensures
        x == y,
{
    assert(x =~= (piece + x).skip(piece.len() as int));
    assert(y =~= (piece + y).skip(piece.len() as int));
}

/// The JSON from the value `field` on, behind any text `start`, is `start`,
/// the value, the text after it, and the JSON from the next value on.
proof fn lemma_world_json_step(world: WorldView, start: Seq<char>, field: nat)
    requires
        field < 5,
    ensures
        start + world_json_from(world, field) == start + json_quoted(field_text(world, field))
            + text_after(field) + world_json_from(world, field + 1),
{
    let value = json_quoted(field_text(world, field));
    let rest = world_json_from(world, field + 1);
    lemma_regroup(start, value, text_after(field) + rest);
    lemma_regroup(start + value, text_after(field), rest);
}

/// The JSON of a world is the opening text and then the JSON from the first
/// value on.
proof fn lemma_world_json_layout(world: WorldView)
    ensures
        world_json(world) == "{\"name\":"@ + world_json_from(world, 0),
{
    let l0 = "{\"name\":"@;
    lemma_world_json_step(world, l0, 0);
    let l1 = l0 + json_quoted(field_text(world, 0)) + text_after(0);
    lemma_world_json_step(world, l1, 1);
    let l2 = l1 + json_quoted(field_text(world, 1)) + text_after(1);
    lemma_world_json_step(world, l2, 2);
    let l3 = l2 + json_quoted(field_text(world, 2)) + text_after(2);
    lemma_world_json_step(world, l3, 3);
    let l4 = l3 + json_quoted(field_text(world, 3)) + text_after(3);
    lemma_world_json_step(world, l4, 4);
    let l5 = l4 + json_quoted(field_text(world, 4)) + text_after(4);
    lemma_regroup(l5, json_quoted(field_text(world, 5)), text_after(5));
}

/// Two worlds whose JSON is equal from the value `field` on have that value
/// in common, and their JSON is equal from the next value on.
proof fn lemma_world_json_value(a: WorldView, b: WorldView, field: nat)
    requires
        field < 5,
        world_json_from(a, field) == world_json_from(b, field),
    ensures
        field_text(a, field) == field_text(b, field),
        world_json_from(a, field + 1) == world_json_from(b, field + 1),
{
    lemma_json_quoted_cancels(
        field_text(a, field),
        field_text(b, field),
        text_after(field) + world_json_from(a, field + 1),
        text_after(field) + world_json_from(b, field + 1),
    );
    lemma_same_start(
        text_after(field),
        world_json_from(a, field + 1),
        world_json_from(b, field + 1),
    );
}

/// A world reads back from its JSON: two worlds that are written as the same
/// JSON have the same name, identifier, seed and climate readings.
pub proof fn lemma_world_json_reads_back(a: WorldView, b: WorldView)
    requires
        world_json(a) == world_json(b),
    ensures
        a == b,
{
    lemma_world_json_layout(a);
    lemma_world_json_layout(b);
    lemma_same_start("{\"name\":"@, world_json_from(a, 0), world_json_from(b, 0));
    lemma_world_json_value(a, b, 0);
    lemma_world_json_value(a, b, 1);
    lemma_world_json_value(a, b, 2);
    lemma_world_json_value(a, b, 3);
    lemma_world_json_value(a, b, 4);
    lemma_json_quoted_cancels(field_text(a, 5), field_text(b, 5), text_after(5), text_after(5));
    lemma_decimal_round_trip(a.id as nat);
    lemma_decimal_round_trip(b.id as nat);
    assert(a.id == b.id);
}

impl World {
    /// The line that describes this world to a reader.
    pub fn to_string(&self) -> (out: String)
        ensures
            out@ == world_line(self@),
    {
        let mut out = String::new();
        out.append("ID: ");
        push_decimal(&mut out, self.id);
        out.append(" Name: ");
        out.append(self.name.as_str());
        out.append(" Seed: ");
        out.append(self.seed.as_str());
        out.append(" Sea Level: ");
        out.append(self.sea_level.as_str());
        out.append(" Temperature: ");
        out.append(self.temperature.as_str());
        out.append(" Humidity: ");
        out.append(self.humidity.as_str());
        assert(out@ =~= world_line(self@));
        out
    }

    /// The JSON object that stands for this world on the wire.
    pub fn to_json(&self) -> (out: String)
        ensures
            out@ == world_json(self@),
    {
        let mut out = String::new();
        out.append("{\"name\":");
        out.append(json_string(self.name.as_str()).as_str());
        out.append(",\"id\":");
        out.append(json_string(u64_text(self.id).as_str()).as_str());
        out.append(",\"seed\":");
        out.append(json_string(self.seed.as_str()).as_str());
        out.append(",\"sea_level\":");
        out.append(json_string(self.sea_level.as_str()).as_str());
        out.append(",\"temperature\":");
        out.append(json_string(self.temperature.as_str()).as_str());
        out.append(",\"humidity\":");
        out.append(json_string(self.humidity.as_str()).as_str());
        out.append("}");
        assert(out@ =~= world_json(self@));
        out
    }
}

impl Clone for World {
    fn clone(&self) -> (out: Self)
        ensures
            out == *self,
    {
        World {
            name: self.name.clone(),
            id: self.id,
            seed: self.seed.clone(),
            sea_level: self.sea_level.clone(),
            temperature: self.temperature.clone(),
            humidity: self.humidity.clone(),
        }
    }
}

impl Default for World {
    /// The world with no name, no seed, the identifier zero and every
    /// climate reading at zero.
    fn default() -> (out: World)
        ensures
            out.name@ == Seq::<char>::empty(),
            out.id == 0,
            out.seed@ == Seq::<char>::empty(),
            out.sea_level@ == "0"@,
            out.temperature@ == "0"@,
            out.humidity@ == "0"@,
    {
        World {
            name: String::new(),
            id: 0,
            seed: String::new(),
            sea_level: String::from_str("0"),
            temperature: String::from_str("0"),
            humidity: String::from_str("0"),
        }
    }
}

} // verus!
