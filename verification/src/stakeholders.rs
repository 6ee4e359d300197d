//! Stakeholders: those who have an interest in a project.

use crate::person::Person;
use vstd::prelude::*;

verus! {

/// An individual or an organization with an interest in the project. The
/// interest may be constructive or destructive.
#[derive(Debug, Clone, PartialEq, Eq)]
pub enum Stakeholder {
    /// A person who has an interest in the project.
    Individual {
        /// The personal information of the individual.
        person: Person,
        /// A description of the individual's interest in the project.
        description: Option<String>,
    },
    /// An organization that has an interest in the project.
    Organization {
        /// The name of the organization.
        name: String,
        /// A description of the organization's interest in the project.
        description: Option<String>,
    },
}

} // verus!
