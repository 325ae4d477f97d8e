//! The station endpoints: which bitmap a request is about, and what a
//! station update may hold.
use crate::bitmap::{all_bit_chars, validate_bitmap, PIXEL_COUNT};
use crate::http::{into_http_error, HttpError, BAD_REQUEST};
use vstd::prelude::*;

verus! {

/// The one station that the server keeps.
pub const STATION_ID: i32 = 1;

/// The two bitmaps of a station.
#[derive(PartialEq, Eq, Structural, Clone, Copy, Debug)]
pub enum Surface {
    Land,
    Water,
}

/// The message of a request that names another surface.
pub open spec fn surface_error_text() -> Seq<char> {
    "surface must be either 'land' or 'water'"@
}

/// The surface that a query parameter names, if any.
pub open spec fn surface_of(text: Seq<char>) -> Option<Surface> {
    if text == "land"@ {
        Some(Surface::Land)
    } else if text == "water"@ {
        Some(Surface::Water)
    } else {
        None
    }
}

/// Reads the `surface` query parameter: "land" or "water".
pub fn parse_surface(surface: &str) -> (res: Result<Surface, HttpError>)
    ensures
        match surface_of(surface@) {
            Some(sf) => res == Ok::<Surface, HttpError>(sf),
            None => res matches Err(e) && e.status == BAD_REQUEST && e.field@ == "error"@
                && e.message@ == surface_error_text(),
        },
{
    proof {
        reveal_strlit("land");
        reveal_strlit("water");
        assert("land"@.len() != "water"@.len());
    }
    let given = surface.to_owned();
    if given == "land".to_owned() {
        Ok(Surface::Land)
    } else if given == "water".to_owned() {
        Ok(Surface::Water)
    } else {
        Err(into_http_error("surface must be either 'land' or 'water'".to_owned()))
    }
}

impl Surface {
    /// The name of the surface as the answers spell it.
    pub open spec fn name_spec(self) -> Seq<char> {
        match self {
            Surface::Land => "land"@,
            Surface::Water => "water"@,
        }
    }

    /// The name of the surface as the answers spell it.
    pub fn name(&self) -> (res: String)
        ensures
            res@ == self.name_spec(),
    {
        match self {
            Surface::Land => "land".to_owned(),
            Surface::Water => "water".to_owned(),
        }
    }

    /// The query that reads this bitmap of the station.
    pub open spec fn select_sql_spec(self) -> Seq<char> {
        match self {
            Surface::Land => "SELECT land_bitmap FROM stations WHERE id = $1"@,
            Surface::Water => "SELECT water_bitmap FROM stations WHERE id = $1"@,
        }
    }

    /// The query that reads this bitmap of the station.
    pub fn select_sql(&self) -> (res: &'static str)
        ensures
            res@ == self.select_sql_spec(),
    {
        match self {
            Surface::Land => "SELECT land_bitmap FROM stations WHERE id = $1",
            Surface::Water => "SELECT water_bitmap FROM stations WHERE id = $1",
        }
    }

    /// The statement that replaces this bitmap of the station.
    pub open spec fn update_sql_spec(self) -> Seq<char> {
        match self {
            Surface::Land => "
            UPDATE stations
            SET
                land_bitmap = $1::bit(768),
                last_updated = now()
            WHERE id = $2
            RETURNING land_bitmap
            "@,
            Surface::Water => "
            UPDATE stations
            SET
                water_bitmap = $1::bit(768),
                last_updated = now()
            WHERE id = $2
            RETURNING water_bitmap
            "@,
        }
    }

    /// The statement that replaces this bitmap of the station.
    pub fn update_sql(&self) -> (res: &'static str)
        ensures
            res@ == self.update_sql_spec(),
    {
        match self {
            Surface::Land => "
            UPDATE stations
            SET
                land_bitmap = $1::bit(768),
                last_updated = now()
            WHERE id = $2
            RETURNING land_bitmap
            ",
            Surface::Water => "
            UPDATE stations
            SET
                water_bitmap = $1::bit(768),
                last_updated = now()
            WHERE id = $2
            RETURNING water_bitmap
            ",
        }
    }
}

/// Checks a request that replaces a bitmap, in the order the server checks
/// it: first the bitmap, then the surface.
pub fn plan_bitmap_update(bitmap: &str, surface: &str) -> (res: Result<Surface, HttpError>)
    ensures
        !(bitmap.len() == PIXEL_COUNT && all_bit_chars(bitmap@)) ==> (res matches Err(e)
            && e.status == BAD_REQUEST && e.field@ == "error"@ && (if bitmap.len() != PIXEL_COUNT {
            e.message@ == "bitmap must be exactly 768 bits long"@
        } else {
            e.message@ == "bitmap must contain only '0' and '1'"@
        })),
        bitmap.len() == PIXEL_COUNT && all_bit_chars(bitmap@) ==> match surface_of(surface@) {
            Some(sf) => res == Ok::<Surface, HttpError>(sf),
            None => res matches Err(e) && e.status == BAD_REQUEST && e.field@ == "error"@
                && e.message@ == surface_error_text(),
        },
{
    match validate_bitmap(bitmap) {
        Ok(()) => {},
        Err(msg) => return Err(into_http_error(msg)),
    }
    parse_surface(surface)
}

/// The name under which the server answers about a surface is the name
/// that selects it in a request.
pub proof fn law_surface_name_round_trip(sf: Surface)
    ensures
        surface_of(sf.name_spec()) == Some(sf),
{
    reveal_strlit("land");
    reveal_strlit("water");
    assert("land"@.len() != "water"@.len());
}

/// The message of an update that moves the station with one coordinate.
pub open spec fn location_error_text() -> Seq<char> {
    "latitude and longitude must both be supplied when updating location"@
}

/// A station update may set the location only with both coordinates.
pub fn check_location_update(has_latitude: bool, has_longitude: bool) -> (res: Result<(), HttpError>)
    ensures
        res is Ok <==> has_latitude == has_longitude,
        res matches Err(e) ==> e.status == BAD_REQUEST && e.field@ == "error"@ && e.message@
            == location_error_text(),
{
    if has_latitude != has_longitude {
        return Err(
            into_http_error(
                "latitude and longitude must both be supplied when updating location".to_owned(),
            ),
        );
    }
    Ok(())
}

/// The column that holds the bitmap of a surface: its name, then
/// `_bitmap`.
pub open spec fn bitmap_column(sf: Surface) -> Seq<char> {
    sf.name_spec() + "_bitmap"@
}

/// The query that reads a bitmap reads the column of that surface and no
/// other.
pub proof fn law_select_reads_its_own_column(sf: Surface)
    ensures
        sf.select_sql_spec() == "SELECT "@ + bitmap_column(sf) + " FROM stations WHERE id = $1"@,
{
    reveal_strlit("SELECT ");
    reveal_strlit(" FROM stations WHERE id = $1");
    reveal_strlit("_bitmap");
    reveal_strlit("land");
    reveal_strlit("water");
    reveal_strlit("SELECT land_bitmap FROM stations WHERE id = $1");
    reveal_strlit("SELECT water_bitmap FROM stations WHERE id = $1");
    assert(sf.select_sql_spec() =~= "SELECT "@ + bitmap_column(sf) + " FROM stations WHERE id = $1"@);
}

/// The statement that replaces a bitmap sets the column of that surface,
/// and no other, to the new bits, stamps the update, and returns that same
/// column.
pub proof fn law_update_sets_its_own_column(sf: Surface)
    ensures
        sf.update_sql_spec() == "
            UPDATE stations
            SET
                "@ + bitmap_column(sf) + " = $1::bit(768),
                last_updated = now()
            WHERE id = $2
            RETURNING "@ + bitmap_column(sf) + "
            "@,
{
    reveal_strlit("
            UPDATE stations
            SET
                ");
    reveal_strlit(" = $1::bit(768),
                last_updated = now()
            WHERE id = $2
            RETURNING ");
    reveal_strlit("
            ");
    reveal_strlit("_bitmap");
    reveal_strlit("land");
    reveal_strlit("water");
    reveal_strlit("
            UPDATE stations
            SET
                land_bitmap = $1::bit(768),
                last_updated = now()
            WHERE id = $2
            RETURNING land_bitmap
            ");
    reveal_strlit("
            UPDATE stations
            SET
                water_bitmap = $1::bit(768),
                last_updated = now()
            WHERE id = $2
            RETURNING water_bitmap
            ");
    assert(sf.update_sql_spec() =~= "
            UPDATE stations
            SET
                "@ + bitmap_column(sf) + " = $1::bit(768),
                last_updated = now()
            WHERE id = $2
            RETURNING "@ + bitmap_column(sf) + "
            "@);
}

} // verus!
