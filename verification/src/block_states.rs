//! The block-state property enums of the block catalog's descriptors.
//! The catalog's descriptor-to-state-id table itself is external data; these
//! enums are the vocabulary its descriptors are written in.

use vstd::prelude::*;

verus! {

#[derive(Debug, PartialEq, Eq, Clone, Copy)]
pub enum Facing {
    North,
    East,
    South,
    West,
    Up,
    Down,
}

#[derive(Debug, PartialEq, Eq, Clone, Copy)]
pub enum HorizontalFacing {
    North,
    South,
    West,
    East,
}

#[derive(Debug, PartialEq, Eq, Clone, Copy)]
pub enum HopperFacing {
    Down,
    North,
    South,
    West,
    East,
}

#[derive(Debug, PartialEq, Eq, Clone, Copy)]
pub enum Face {
    Floor,
    Wall,
    Ceiling,
}

#[derive(Debug, PartialEq, Eq, Clone, Copy)]
pub enum Half {
    Top,
    Bottom,
}

#[derive(Debug, PartialEq, Eq, Clone, Copy)]
pub enum DoorHinge {
    Left,
    Right,
}

#[derive(Debug, PartialEq, Eq, Clone, Copy)]
pub enum Axis {
    X,
    Y,
    Z,
}

#[derive(Debug, PartialEq, Eq, Clone, Copy)]
pub enum SlabType {
    Top,
    Bottom,
    Double,
}

#[derive(Debug, PartialEq, Eq, Clone, Copy)]
pub enum StairsShape {
    Straight,
    InnerLeft,
    InnerRight,
    OuterLeft,
    OuterRight,
}

#[derive(Debug, PartialEq, Eq, Clone, Copy)]
pub enum RailShape {
    NorthSouth,
    EastWest,
    AscendingEast,
    AscendingWest,
    AscendingNorth,
    AscendingSouth,
    SouthEast,
    SouthWest,
    NorthWest,
    NorthEast,
}

#[derive(Debug, PartialEq, Eq, Clone, Copy)]
pub enum RedstoneRailShape {
    NorthSouth,
    EastWest,
    AscendingEast,
    AscendingWest,
    AscendingNorth,
    AscendingSouth,
}

#[derive(Debug, PartialEq, Eq, Clone, Copy)]
pub enum WallConnection {
    Unconnected,
    Low,
    Tall,
}

#[derive(Debug, PartialEq, Eq, Clone, Copy)]
pub enum BambooLeaves {
    NoLeaves,
    Small,
    Large,
}

#[derive(Debug, PartialEq, Eq, Clone, Copy)]
pub enum BellAttachment {
    Floor,
    Ceiling,
    SingleWall,
    DoubleWall,
}

#[derive(Debug, PartialEq, Eq, Clone, Copy)]
pub enum DripleafTilt {
    Untilted,
    Unstable,
    Partial,
    Full,
}

#[derive(Debug, PartialEq, Eq, Clone, Copy)]
pub enum BedPart {
    Head,
    Foot,
}

#[derive(Debug, PartialEq, Eq, Clone, Copy)]
pub enum SculkSensorPhase {
    Inactive,
    Active,
    Cooldown,
}

#[derive(Debug, PartialEq, Eq, Clone, Copy)]
pub enum ChestType {
    Single,
    Left,
    Right,
}

#[derive(Debug, PartialEq, Eq, Clone, Copy)]
pub enum ComparatorMode {
    Compare,
    Subtract,
}

#[derive(Debug, PartialEq, Eq, Clone, Copy)]
pub enum JigsawOrientation {
    DownEast,
    DownNorth,
    DownSouth,
    DownWest,
    UpEast,
    UpNorth,
    UpSouth,
    UpWest,
    WestUp,
    EastUp,
    NorthUp,
    SouthUp,
}

#[derive(Debug, PartialEq, Eq, Clone, Copy)]
pub enum PistonType {
    Normal,
    Sticky,
}

#[derive(Debug, PartialEq, Eq, Clone, Copy)]
pub enum HorizontalAxis {
    X,
    Z,
}

#[derive(Debug, PartialEq, Eq, Clone, Copy)]
pub enum NoteBlockInstrument {
    Harp,
    BaseDrum,
    Snare,
    Hat,
    Bass,
    Flute,
    Bell,
    Guitar,
    Chime,
    Xylophone,
    IronXylophone,
    CowBell,
    Didgeridoo,
    Bit,
    Banjo,
    Pling,
    Zombie,
    Skeleton,
    Creeper,
    Dragon,
    WitherSkeleton,
    Piglin,
    CustomHead,
}

#[derive(Debug, PartialEq, Eq, Clone, Copy)]
pub enum PointedDripstoneDirection {
    Up,
    Down,
}

#[derive(Debug, PartialEq, Eq, Clone, Copy)]
pub enum PointedDripstoneThickness {
    TipMerge,
    Tip,
    Frustum,
    Middle,
    Base,
}

#[derive(Debug, PartialEq, Eq, Clone, Copy)]
pub enum RedstoneWireConnection {
    Up,
    Side,
    Unconnected,
}

#[derive(Debug, PartialEq, Eq, Clone, Copy)]
pub enum StructureBlockMode {
    Save,
    Load,
    Corner,
    Data,
}

} // verus!