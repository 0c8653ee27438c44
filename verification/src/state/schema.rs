//! Which state databases this engine reads and how one is brought forward:
//! the schema version is in `user_version`, migrations go forward only, and a
//! fresh database runs every one of them in order, so a migrated database is
//! identical to a new one.

use vstd::prelude::*;

use crate::error::{Error, ErrorView};
use crate::text;

verus! {

/// Schema version this engine writes.
pub const SCHEMA_VERSION: i32 = 4;

/// The oldest schema the readers understand without a migration: version 2
/// has every typed table; version 3 only adds nullable columns to it, and
/// version 4 adds tables, nullable columns, and stores option values as text
/// where 2 and 3 stored integers — which a reader tells apart by the value's
/// own type, so it reads all three without a migration.
pub const OLDEST_READABLE_SCHEMA: i32 = 2;

/// What a database of a newer engine is refused with.
pub open spec fn too_new(version: int) -> ErrorView {
    ErrorView {
        code: "state_schema_unsupported"@,
        message: "state database schema "@ + text::signed_decimal(version)
            + " is newer than this engine understands ("@ + text::signed_decimal(
            SCHEMA_VERSION as int,
        ) + ")"@,
    }
}

/// What a database too old to be read as it is is refused with.
pub open spec fn too_old(version: int) -> ErrorView {
    ErrorView {
        code: "state_schema_stale"@,
        message: "state database schema "@ + text::signed_decimal(version)
            + " needs a mutating run to migrate to "@ + text::signed_decimal(SCHEMA_VERSION as int),
    }
}

fn newer(version: i32) -> (r: Error)
    ensures
        r@ == too_new(version as int),
{
    let found = text::signed_decimal_of(version as i64);
    let own = text::signed_decimal_of(SCHEMA_VERSION as i64);
    let message = text::cat5(
        "state database schema ",
        found.as_str(),
        " is newer than this engine understands (",
        own.as_str(),
        ")",
    );
    Error::new("state_schema_unsupported", message.as_str())
}

/// Whether a read-only opener sees state in a database of a version: a
/// database another run created but never populated is no state, and a reader
/// cannot migrate.
pub fn readable(version: i32) -> (r: Result<bool, Error>)
    ensures
        match r {
            Ok(has_state) => version == 0 && !has_state || (OLDEST_READABLE_SCHEMA <= version
                <= SCHEMA_VERSION && has_state),
            Err(e) => version != 0 && (if version > SCHEMA_VERSION {
                e@ == too_new(version as int)
            } else {
                version < OLDEST_READABLE_SCHEMA && e@ == too_old(version as int)
            }),
        },
{
    if version == 0 {
        return Ok(false);
    }
    if version > SCHEMA_VERSION {
        return Err(newer(version));
    }
    if version < OLDEST_READABLE_SCHEMA {
        let found = text::signed_decimal_of(version as i64);
        let own = text::signed_decimal_of(SCHEMA_VERSION as i64);
        let message = text::cat4(
            "state database schema ",
            found.as_str(),
            " needs a mutating run to migrate to ",
            own.as_str(),
        );
        return Err(Error::new("state_schema_stale", message.as_str()));
    }
    Ok(true)
}

/// The migrations from a version to this engine's: every version in between,
/// in order.
pub open spec fn steps_from(version: int) -> Seq<i32> {
    Seq::new(
        if version >= SCHEMA_VERSION {
            0
        } else if version < 0 {
            SCHEMA_VERSION as nat
        } else {
            (SCHEMA_VERSION - version) as nat
        },
        |i: int|
            (i + 1 + if version < 0 {
                0int
            } else {
                version
            }) as i32,
    )
}

/// The migrations a mutating run applies to a database, in order.
pub fn migrations(version: i32) -> (r: Result<Vec<i32>, Error>)
    ensures
        match r {
            Ok(steps) => version <= SCHEMA_VERSION && steps@ == steps_from(version as int),
            Err(e) => version > SCHEMA_VERSION && e@ == too_new(version as int),
        },
{
    if version > SCHEMA_VERSION {
        return Err(newer(version));
    }
    let mut steps: Vec<i32> = Vec::new();
    let first: i32 = if version < 0 {
        0
    } else {
        version
    };
    let mut target: i32 = first;
    while target < SCHEMA_VERSION
        invariant
            0 <= first <= target <= SCHEMA_VERSION,
            steps@.len() == target - first,
            forall|i: int| 0 <= i < steps@.len() ==> #[trigger] steps@[i] == i + 1 + first,
        decreases SCHEMA_VERSION - target,
    {
        target = target + 1;
        steps.push(target);
    }
    assert(steps@ =~= steps_from(version as int));
    Ok(steps)
}

/// A migration ends at this engine's version, and a migrated database has
/// nothing left to migrate.
pub proof fn lemma_migrations_end_at_this_schema(version: int)
    requires
        version < SCHEMA_VERSION,
    ensures
        steps_from(version).len() > 0,
        steps_from(version).last() == SCHEMA_VERSION,
        steps_from(SCHEMA_VERSION as int).len() == 0,
{
}

/// Whether the file has the columns a schema version added.
pub fn has_schema(found: i32, version: i32) -> (r: bool)
    ensures
        r == (found >= version),
{
    found >= version
}

}
