# mcalendar

A minimalist web calendar: every date can hold one line of text, a month is
shown as its days grouped into weeks, and weekends and Czech public holidays
are marked as non-working days (a holiday's name fills a day with no text).

- `src/` is the verified library (Verus):
  - `date` — calendar dates, their validity, next day and weekday, taken from chrono;
  - `names` — Czech names of weekdays and months;
  - `model` — `Month`, `Week`, `Day`, and moving to the previous or next month;
  - `calendar` — laying out a month from saved events, holidays and today's date,
    and the (day, event) pairs that saving a month stores;
  - `holidays` — the table from day to Czech holiday name;
  - `client` — the page's decisions: day colours, labels, and how messages
    change the shown month.
- `app/` is the web server: Postgres storage, the holiday service, JSON.
- `tests/` run the library against concrete months.
