use vstd::prelude::*;

verus! {

/// The colliders a model is given when it is inserted: a cuboid (`C` holds its offset and
/// half extents), or several colliders.
#[derive(Debug)]
#[verifier::reject_recursive_types(C)]
pub enum ModelCollider<C> {
    Cuboid(C),
    Multiple(Vec<ModelCollider<C>>),
}

/// How a level file stores a model's colliders: none, one cuboid, or a flat list of cuboids.
#[derive(Clone, Debug)]
#[verifier::reject_recursive_types(C)]
pub enum ModelColliderData<C> {
    Empty,
    Singular { collider: C },
    Multiple { colliders: Vec<C> },
}

/// The cuboids of a collider, in order.
pub open spec fn cuboids<C>(m: ModelCollider<C>) -> Seq<C>
    decreases m,
{
    match m {
        ModelCollider::Cuboid(c) => seq![c],
        ModelCollider::Multiple(v) => cuboids_of_list(v@),
    }
}

/// The cuboids of a list of colliders, in order.
pub open spec fn cuboids_of_list<C>(s: Seq<ModelCollider<C>>) -> Seq<C>
    decreases s,
{
    if s.len() == 0 {
        Seq::empty()
    } else {
        cuboids_of_list(s.subrange(0, s.len() - 1)) + cuboids(s[s.len() - 1])
    }
}

/// The cuboids that stored collider data stands for, in order.
pub open spec fn data_cuboids<C>(d: ModelColliderData<C>) -> Seq<C> {
    match d {
        ModelColliderData::Empty => Seq::empty(),
        ModelColliderData::Singular { collider } => seq![collider],
        ModelColliderData::Multiple { colliders } => colliders@,
    }
}

/// The cuboids of a collider, in order; nested lists are flattened.
pub fn cuboids_of<C: Copy>(collider: &ModelCollider<C>) -> (v: Vec<C>)
    ensures
        v@ == cuboids(*collider),
    decreases collider,
{
    let mut colliders: Vec<C> = Vec::new();
    match collider {
        ModelCollider::Cuboid(c) => {
            colliders.push(*c);
        },
        ModelCollider::Multiple(multiple) => {
            let mut i: usize = 0;
            while i < multiple.len()
                invariant
                    *collider == ModelCollider::Multiple(*multiple),
                    i <= multiple@.len(),
                    colliders@ == cuboids_of_list(multiple@.subrange(0, i as int)),
                decreases multiple@.len() - i,
            {
                proof {
                    assert(multiple@.subrange(0, i + 1).subrange(0, i as int) =~= multiple@.subrange(0, i as int));
                    assert(multiple@.subrange(0, i + 1)[i as int] == multiple@[i as int]);
                    assert(decreases_to!(*collider => collider->Multiple_0));
                    assert(decreases_to!(*multiple => multiple@));
                    assert(decreases_to!(multiple@ => multiple@[i as int]));
                    assert(decreases_to!(*collider => multiple@[i as int]));
                }
                let mut inner = cuboids_of(&multiple[i]);
                colliders.append(&mut inner);
                i += 1;
            }
            proof {
                assert(multiple@.subrange(0, multiple@.len() as int) =~= multiple@);
            }
        },
    }
    colliders
}

impl<C: Copy> ModelColliderData<C> {
    /// The stored form of a collider: its cuboids, none, one or several.
    pub fn from_model_collider(collider: &ModelCollider<C>) -> (d: Self)
        ensures
            data_cuboids(d) == cuboids(*collider),
            d is Empty <==> cuboids(*collider).len() == 0,
            d is Singular <==> cuboids(*collider).len() == 1,
            d is Multiple <==> cuboids(*collider).len() > 1,
    {
        let mut colliders = cuboids_of(collider);
        if colliders.len() == 0 {
            ModelColliderData::Empty
        } else if colliders.len() == 1 {
            let c = colliders.pop().unwrap();
            proof {
                assert(cuboids(*collider) =~= seq![c]);
            }
            ModelColliderData::Singular { collider: c }
        } else {
            ModelColliderData::Multiple { colliders }
        }
    }

    /// The collider that stored data stands for: none, a cuboid, or a list of cuboids.
    pub fn into_model_collider(&self) -> (m: Option<ModelCollider<C>>)
        ensures
            (match *self {
                ModelColliderData::Empty => m is None,
                ModelColliderData::Singular { collider } => m == Some(ModelCollider::Cuboid(collider)),
                ModelColliderData::Multiple { colliders } => m matches Some(ModelCollider::Multiple(v))
                    && v@.len() == colliders@.len()
                    && forall|i: int| 0 <= i < v@.len() ==> #[trigger] v@[i] == ModelCollider::Cuboid(colliders@[i]),
            }),
            m matches Some(c) ==> cuboids(c) == data_cuboids(*self),
    {
        match self {
            ModelColliderData::Empty => None,
            ModelColliderData::Singular { collider } => {
                proof {
                    assert(cuboids(ModelCollider::Cuboid(*collider)) =~= seq![*collider]);
                }
                Some(ModelCollider::Cuboid(*collider))
            },
            ModelColliderData::Multiple { colliders } => {
                let mut v: Vec<ModelCollider<C>> = Vec::new();
                let mut i: usize = 0;
                while i < colliders.len()
                    invariant
                        i <= colliders@.len(),
                        v@.len() == i,
                        forall|j: int| 0 <= j < i ==> #[trigger] v@[j] == ModelCollider::Cuboid(colliders@[j]),
                        cuboids_of_list(v@) == colliders@.subrange(0, i as int),
                    decreases colliders@.len() - i,
                {
                    let ghost before = v@;
                    v.push(ModelCollider::Cuboid(colliders[i]));
                    proof {
                        assert(v@.subrange(0, v@.len() - 1) =~= before);
                        assert(v@[v@.len() - 1] == ModelCollider::Cuboid(colliders@[i as int]));
                        assert(cuboids(ModelCollider::Cuboid(colliders@[i as int])) =~= seq![colliders@[i as int]]);
                        assert(cuboids_of_list(v@) == cuboids_of_list(before) + seq![colliders@[i as int]]);
                        assert(colliders@.subrange(0, i + 1) =~= colliders@.subrange(0, i as int) + seq![colliders@[i as int]]);
                    }
                    i += 1;
                }
                proof {
                    assert(colliders@.subrange(0, colliders@.len() as int) =~= colliders@);
                }
                Some(ModelCollider::Multiple(v))
            },
        }
    }
}

impl<C: Copy> ModelCollider<C> {
    /// A copy of the collider, with the same cuboids.
    pub fn copied(&self) -> (r: Self)
        ensures
            cuboids(r) == cuboids(*self),
        decreases self,
    {
        match self {
            ModelCollider::Cuboid(c) => ModelCollider::Cuboid(*c),
            ModelCollider::Multiple(multiple) => {
                let mut v: Vec<ModelCollider<C>> = Vec::new();
                let mut i: usize = 0;
                while i < multiple.len()
                    invariant
                        *self == ModelCollider::Multiple(*multiple),
                        i <= multiple@.len(),
                        v@.len() == i,
                        cuboids_of_list(v@) == cuboids_of_list(multiple@.subrange(0, i as int)),
                    decreases multiple@.len() - i,
                {
                    proof {
                        assert(decreases_to!(*self => self->Multiple_0));
                        assert(decreases_to!(*multiple => multiple@));
                        assert(decreases_to!(multiple@ => multiple@[i as int]));
                        assert(decreases_to!(*self => multiple@[i as int]));
                    }
                    let c = multiple[i].copied();
                    let ghost before = v@;
                    v.push(c);
                    proof {
                        assert(v@.subrange(0, v@.len() - 1) =~= before);
                        assert(multiple@.subrange(0, i + 1).subrange(0, i as int) =~= multiple@.subrange(0, i as int));
                        assert(multiple@.subrange(0, i + 1)[i as int] == multiple@[i as int]);
                    }
                    i += 1;
                }
                proof {
                    assert(multiple@.subrange(0, multiple@.len() as int) =~= multiple@);
                }
                ModelCollider::Multiple(v)
            },
        }
    }
}

/// The cuboids of an optional collider: none for `None`.
pub open spec fn option_cuboids<C>(m: Option<ModelCollider<C>>) -> Seq<C> {
    match m {
        Some(c) => cuboids(c),
        None => Seq::empty(),
    }
}

/// A model's collider once `collider` is added to what it had: the collider alone, a list
/// grown by it, or a list of the single collider it had and the new one.
pub fn insert_collider<C>(existing: Option<ModelCollider<C>>, collider: ModelCollider<C>) -> (m: ModelCollider<C>)
    ensures
        (match existing {
            None => m == collider,
            Some(ModelCollider::Multiple(v)) => m matches ModelCollider::Multiple(w) && w@ == v@.push(collider),
            Some(single) => m matches ModelCollider::Multiple(w) && w@ == seq![single, collider],
        }),
        cuboids(m) == option_cuboids(existing) + cuboids(collider),
{
    match existing {
        None => {
            proof {
                assert(Seq::<C>::empty() + cuboids(collider) =~= cuboids(collider));
            }
            collider
        },
        Some(ModelCollider::Multiple(v)) => {
            let mut v = v;
            let ghost before = v@;
            v.push(collider);
            proof {
                assert(v@.subrange(0, v@.len() - 1) =~= before);
            }
            ModelCollider::Multiple(v)
        },
        Some(single) => {
            let ghost s = single;
            let v = vec![single, collider];
            proof {
                assert(v@.subrange(0, 1) =~= seq![s]);
                assert(v@.subrange(0, 1).subrange(0, 0) =~= Seq::<ModelCollider<C>>::empty());
                assert(cuboids_of_list(seq![s]) =~= cuboids(s)) by {
                    assert(cuboids_of_list(seq![s].subrange(0, 0)) =~= Seq::<C>::empty());
                }
            }
            ModelCollider::Multiple(v)
        },
    }
}

/// Law: storing a model's colliders and reading them back keeps its cuboids, in order.
pub proof fn law_collider_round_trip<C>(collider: ModelCollider<C>, stored: ModelColliderData<C>, read: Option<ModelCollider<C>>)
    requires
        data_cuboids(stored) == cuboids(collider),
        read matches Some(c) ==> cuboids(c) == data_cuboids(stored),
        read is None <==> stored is Empty,
        stored is Empty <==> cuboids(collider).len() == 0,
    ensures
        read matches Some(c) ==> cuboids(c) == cuboids(collider),
        read is None <==> cuboids(collider).len() == 0,
{
}

} // verus!
