//! Sampling: the source of random choices, and the trapdoors built from them.

pub mod g_trapdoor;
