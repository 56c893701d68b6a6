# animaksm

A verified core for a userspace KSM (Kernel Same-page Merging) daemon and its
companion, a deduplicating swap proxy.

* The **governor** reads memory pressure and decides which KSM profile to write.
* The **scanner** selects processes with much anonymous memory and has
  `madvise(MADV_MERGEABLE)` injected into them.
* The **swap proxy** stores equal pages once, behind a block device.

## Layout

* `src/` holds the library: parsing, rules, state machines and tables, each with
  a contract that Verus proves. What holds across calls is stated in public proof
  functions whose names begin with `law_`.
* `app/` holds the program: the command line, files, ptrace, signals and timers.
  It performs what the library asks for and hands the outcome back.
* `tests/` holds the tests of the library.

Functions of the library that make calls take the outside world as a value and give
it back, so that their contracts can say how often and in which order each call is
made. The program has nothing to keep account of there and passes `()`.

Points in time are milliseconds of a monotonic clock. Fractional numbers are held
as bit patterns and compared in the library; they are computed and formatted by
the program.
