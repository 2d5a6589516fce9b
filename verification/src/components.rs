use vstd::prelude::*;

verus! {

/// Tile coordinates `(x, y)` of an entity together with its draw layer `z`.
#[derive(Debug, Clone, Copy, PartialEq, Eq, Structural)]
pub struct Position {
    pub x: u8,
    pub y: u8,
    pub z: u8,
}

/// The images an entity is drawn with: one for a still picture, several for
/// an animation. There is always at least one.
#[derive(Debug)]
pub struct Renderable {
    paths: Vec<String>,
}

/// Whether a [`Renderable`] shows one image or cycles through several.
#[derive(Debug, Clone, Copy, PartialEq, Eq, Structural)]
pub enum RenderableKind {
    Static,
    Animated,
}

impl View for Renderable {
    type V = Seq<Seq<char>>;

    /// The image references in order, each as its characters.
    closed spec fn view(&self) -> Seq<Seq<char>> {
        Seq::new(self.paths@.len(), |i: int| self.paths@[i]@)
    }
}

impl Renderable {
    #[verifier::type_invariant]
    spec fn nonempty(&self) -> bool {
        self.paths@.len() >= 1
    }

    /// The kind that a sequence of `n` images has.
    pub open spec fn kind_of_len(n: nat) -> RenderableKind {
        if n == 1 {
            RenderableKind::Static
        } else {
            RenderableKind::Animated
        }
    }

    pub fn new_static(path: String) -> (r: Self)
        ensures
            r@ == seq![path@],
    {
        let r = Self { paths: vec![path] };
        assert(r@ =~= seq![path@]);
        r
    }

    pub fn new_animated(paths: Vec<String>) -> (r: Self)
        requires
            paths@.len() >= 1,
        ensures
            r@ == Seq::new(paths@.len(), |i: int| paths@[i]@),
    {
        Self { paths }
    }

    /// Number of images.
    pub fn len(&self) -> (n: usize)
        ensures
            n == self@.len(),
            n >= 1,
    {
        proof {
            use_type_invariant(self);
        }
        self.paths.len()
    }

    pub fn kind(&self) -> (k: RenderableKind)
        ensures
            k == Self::kind_of_len(self@.len()),
    {
        proof {
            use_type_invariant(self);
        }
        if self.paths.len() == 1 {
            RenderableKind::Static
        } else {
            RenderableKind::Animated
        }
    }

    /// The image at `path_index`, counted cyclically.
    pub fn path(&self, path_index: usize) -> (p: String)
        ensures
            self@.len() >= 1,
            p@ == self@[path_index as int % self@.len() as int],
    {
        proof {
            use_type_invariant(self);
        }
        let i: usize = path_index % self.paths.len();
        self.paths[i].clone()
    }
}

/// Marks a wall.
#[derive(Debug, Clone, Copy, PartialEq, Eq, Structural)]
pub struct Wall {}

/// Marks the entity that the keys steer.
#[derive(Debug, Clone, Copy, PartialEq, Eq, Structural)]
pub struct Player {}

#[derive(Debug, Clone, Copy, PartialEq, Eq, Structural)]
pub enum BoxColor {
    Red,
    Blue,
}

impl BoxColor {
    /// The lower-case name used in image file names.
    pub open spec fn name_spec(self) -> Seq<char> {
        match self {
            BoxColor::Red => "red"@,
            BoxColor::Blue => "blue"@,
        }
    }

    pub fn to_string(&self) -> (s: String)
        ensures
            s@ == self.name_spec(),
    {
        match self {
            BoxColor::Red => "red".to_string(),
            BoxColor::Blue => "blue".to_string(),
        }
    }
}

/// A box that the player can push; it belongs on a spot of its colour.
#[derive(Debug, Clone, Copy, PartialEq, Eq, Structural)]
pub struct Box {
    pub color: BoxColor,
}

/// A goal tile for a box of the same colour.
#[derive(Debug, Clone, Copy, PartialEq, Eq, Structural)]
pub struct BoxSpot {
    pub color: BoxColor,
}

/// Marks an entity that a push displaces.
#[derive(Debug, Clone, Copy, PartialEq, Eq, Structural, Default)]
pub struct Movable;

/// Marks an entity that stops any push.
#[derive(Debug, Clone, Copy, PartialEq, Eq, Structural, Default)]
pub struct Immovable;

} // verus!
