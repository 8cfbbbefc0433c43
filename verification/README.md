# chronographer

Task scheduling building blocks, verified with Verus.

- `src/` is the verified library:
  - `cron_lexer`, `cron_parser`, `cron_expression`: reading a Quartz-style CRON expression
    (`TaskScheduleCron::from_str`), with the exact error for each malformed input, the empty
    expression included; a run of digits reads as its number up to 100000 (`NUMBER_LIMIT`) and
    as 100000 beyond, so that a value too large for its field is reported as out of range;
  - `cron_field`, `cron_schedule`, `calendar`: the fields of a schedule and the search for the
    next second at which it fires (`TaskScheduleCron::next_time_from`), for every schedule and
    every start in the calendar's range (years -9999 to 9999); when it finds nothing, the
    schedule does not fire from the start to the end of `LAST_CRON_YEAR` (2099);
  - `cron_text`: how fields and schedules are written back;
  - `hooks`: the registry of task hooks (instances per hook type, hook types per event, events
    per task instance);
  - `task`, `frames`, `frame_builder`, `identifier`, `scheduler`, `errors`: tasks and the
    numbering of their instances, frame composition, snowflake identifiers, scheduler
    configuration and the decisions a scheduler worker takes on each piece of work.
- `app/` is the runtime around it: the async `TaskTrigger`, the process-wide hook registry and
  the emission of hook events, the process-wide instance counter, identifier generation and
  the handling of a worker's work.
- `tests/` holds the tests.
