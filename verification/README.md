# stdate

A small date-and-time library: `DateTime` holds a date from 1970-01-01 on,
with a time of day, and moves by days, weeks, months and years.

The library is written in Verus. Every `DateTime` is a valid date (a type
invariant), and each operation's contract states its result over a
mathematical model of the Gregorian calendar (`src/model.rs`,
`src/calendar.rs`), in particular over the count of seconds since
1970-01-01 00:00:00. `src/laws.rs` and `src/order.rs` prove the properties
that relate operations (a day forward and back gives the date back, the
order of dates is chronological, and so on).

`app/main.rs` prints the present date and time.
