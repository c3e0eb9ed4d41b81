//! Traits of operations having a well-known or explicit geometric meaning.
//!
//! These traits are declarations only: they name the algebraic operations a
//! geometric type may offer, for downstream implementors. None of the
//! factorization code depends on them.

use vstd::prelude::*;

verus! {

/// Objects representing a translation, to which new translations can be
/// appended or prepended.
pub trait Translation: Sized {
    /// The type of the translation vector.
    type TranslationType;

    /// The translation associated with this object.
    fn translation(&self) -> Self::TranslationType;

    /// The inverse translation associated with this object.
    fn inv_translation(&self) -> Self::TranslationType;

    /// Appends a translation to this object in place.
    fn append_translation_mut(&mut self, amount: &Self::TranslationType);

    /// Appends the translation `amount` to a copy of this object.
    fn append_translation(&self, amount: &Self::TranslationType) -> Self;

    /// Prepends a translation to this object in place.
    fn prepend_translation_mut(&mut self, amount: &Self::TranslationType);

    /// Prepends the translation `amount` to a copy of this object.
    fn prepend_translation(&self, amount: &Self::TranslationType) -> Self;

    /// Sets the translation.
    fn set_translation(&mut self, amount: Self::TranslationType);
}

/// Objects able to translate other objects, typically vectors translating
/// points.
pub trait Translate<V> {
    /// Applies a translation to an object.
    fn translate(&self, v: &V) -> V;

    /// Applies an inverse translation to an object.
    fn inv_translate(&self, v: &V) -> V;
}

/// Objects representing a rotation — an isometry without translation and
/// without reflexion — to which new rotations can be appended.
pub trait Rotation: Sized {
    /// The type of the rotation.
    type RotationType;

    /// The rotation associated with this object.
    fn rotation(&self) -> Self::RotationType;

    /// The inverse rotation associated with this object.
    fn inv_rotation(&self) -> Self::RotationType;

    /// Appends a rotation to this object in place.
    fn append_rotation_mut(&mut self, amount: &Self::RotationType);

    /// Appends the rotation `amount` to a copy of this object.
    fn append_rotation(&self, amount: &Self::RotationType) -> Self;

    /// Prepends a rotation to this object in place.
    fn prepend_rotation_mut(&mut self, amount: &Self::RotationType);

    /// Prepends the rotation `amount` to a copy of this object.
    fn prepend_rotation(&self, amount: &Self::RotationType) -> Self;

    /// Sets the rotation.
    fn set_rotation(&mut self, amount: Self::RotationType);
}

/// Objects able to rotate other objects, typically matrices rotating
/// vectors.
pub trait Rotate<V> {
    /// Applies a rotation to `v`.
    fn rotate(&self, v: &V) -> V;

    /// Applies an inverse rotation to `v`.
    fn inv_rotate(&self, v: &V) -> V;
}

/// The composition of a rotation with a component-wise absolute value.
pub trait AbsoluteRotate<V> {
    /// Applies the absolute rotation to `v`.
    fn absolute_rotate(&self, v: &V) -> V;
}

/// Objects representing a general transformation — an isometry without
/// reflexion — to which new transformations can be appended.
pub trait Transformation: Sized {
    /// The type of the transformation.
    type TransformationType;

    /// The transformation associated with this object.
    fn transformation(&self) -> Self::TransformationType;

    /// The inverse transformation associated with this object.
    fn inv_transformation(&self) -> Self::TransformationType;

    /// Appends a transformation to this object in place.
    fn append_transformation_mut(&mut self, amount: &Self::TransformationType);

    /// Appends the transformation `amount` to a copy of this object.
    fn append_transformation(&self, amount: &Self::TransformationType) -> Self;

    /// Prepends a transformation to this object in place.
    fn prepend_transformation_mut(&mut self, amount: &Self::TransformationType);

    /// Prepends the transformation `amount` to a copy of this object.
    fn prepend_transformation(&self, amount: &Self::TransformationType) -> Self;

    /// Sets the transformation.
    fn set_transformation(&mut self, amount: Self::TransformationType);
}

/// Objects able to transform other objects, typically matrices transforming
/// vectors.
pub trait Transform<V> {
    /// Applies a transformation to `v`.
    fn transform(&self, v: &V) -> V;

    /// Applies an inverse transformation to `v`.
    fn inv_transform(&self, v: &V) -> V;
}

/// Objects having a dot (inner) product.
pub trait Dot {
    /// The type of the dot product.
    type DotProductType;

    /// Computes the dot product of two objects.
    fn dot(&self, other: &Self) -> Self::DotProductType;
}

/// Objects having a cross product.
pub trait Cross {
    /// The type of the cross product.
    type CrossProductType;

    /// Computes the cross product of two objects, usually vectors.
    fn cross(&self, other: &Self) -> Self::CrossProductType;
}

/// Objects whose cross product operation can be expressed as a matrix.
pub trait CrossMatrix {
    /// The type of the matrix form of the cross product.
    type CrossMatrixFormType;

    /// The matrix associated to any cross product with this object.
    fn cross_matrix(&self) -> Self::CrossMatrixFormType;
}

/// Objects that can be put in homogeneous coordinates.
pub trait ToHomogeneous {
    /// The type of the homogeneous coordinates form.
    type HomogeneousFormType;

    /// The homogeneous coordinates form of this object.
    fn to_homogeneous(&self) -> Self::HomogeneousFormType;
}

/// Objects that can be built back from a homogeneous coordinates form;
/// this is not required to invert `ToHomogeneous`.
pub trait FromHomogeneous<U>: Sized {
    /// Builds an object from its homogeneous coordinates form.
    fn from(h: &U) -> Self;
}

/// The zero element of a vector space, seen as an element of its embedding
/// affine space.
pub trait Orig: Sized {
    /// The trivial origin.
    fn orig() -> Self;

    /// Whether this point is exactly the trivial origin.
    fn is_orig(&self) -> bool;
}

} // verus!
